//! Text handling shared by the parsers: words, decimal numbers, prefixes and
//! suffixes, byte offsets into UTF-8 text, and replacement of substrings.
use vstd::prelude::*;
use vstd::string::*;
use vstd::utf8::*;

verus! {

/// Whether `c` has the Unicode `White_Space` property.
pub open spec fn is_white_space(c: char) -> bool {
    ||| '\u{9}' <= c <= '\u{d}'
    ||| c == ' '
    ||| c == '\u{85}'
    ||| c == '\u{a0}'
    ||| c == '\u{1680}'
    ||| '\u{2000}' <= c <= '\u{200a}'
    ||| c == '\u{2028}'
    ||| c == '\u{2029}'
    ||| c == '\u{202f}'
    ||| c == '\u{205f}'
    ||| c == '\u{3000}'
}

/// Whether `c` takes a single byte in UTF-8.
pub open spec fn is_one_byte(c: char) -> bool {
    c <= '\u{7f}'
}

/// How many characters at the front of `s` are not white space.
pub open spec fn word_len(s: Seq<char>) -> nat
    decreases s.len(),
{
    if s.len() == 0 || is_white_space(s[0]) {
        0
    } else {
        1 + word_len(s.drop_first())
    }
}

pub proof fn lemma_word_len_bound(s: Seq<char>)
    ensures
        word_len(s) <= s.len(),
        s.len() > 0 && !is_white_space(s[0]) ==> word_len(s) > 0,
        forall|i: int| 0 <= i < word_len(s) ==> !is_white_space(#[trigger] s[i]),
        word_len(s) < s.len() ==> is_white_space(s[word_len(s) as int]),
    decreases s.len(),
{
    if s.len() > 0 && !is_white_space(s[0]) {
        let rest = s.drop_first();
        lemma_word_len_bound(rest);
        assert forall|i: int| 0 <= i < word_len(s) implies !is_white_space(#[trigger] s[i]) by {
            if i > 0 {
                assert(s[i] == rest[i - 1]);
            }
        }
        if word_len(s) < s.len() {
            assert(s[word_len(s) as int] == rest[word_len(rest) as int]);
        }
    }
}

/// The words of `s`: its maximal runs of characters that are not white space,
/// in order.
pub open spec fn words(s: Seq<char>) -> Seq<Seq<char>>
    decreases s.len(),
    via words_decreases
{
    if s.len() == 0 {
        seq![]
    } else if is_white_space(s[0]) {
        words(s.drop_first())
    } else {
        seq![s.take(word_len(s) as int)] + words(s.skip(word_len(s) as int))
    }
}

#[via_fn]
proof fn words_decreases(s: Seq<char>) {
    lemma_word_len_bound(s);
}

/// Tests whether a character is white space.
pub fn white_space(c: char) -> (r: bool)
    ensures
        r == is_white_space(c),
{
    ('\u{9}' <= c && c <= '\u{d}') || c == ' ' || c == '\u{85}' || c == '\u{a0}' || c == '\u{1680}'
        || ('\u{2000}' <= c && c <= '\u{200a}') || c == '\u{2028}' || c == '\u{2029}' || c
        == '\u{202f}' || c == '\u{205f}' || c == '\u{3000}'
}

/// Collects the characters of `s`.
pub fn chars_of(s: &str) -> (r: Vec<char>)
    ensures
        r@ == s@,
{
    let mut r: Vec<char> = Vec::new();
    for c in it: s.chars()
        invariant
            it.seq() == s@,
            r@ == s@.take(it.index()),
    {
        r.push(c);
    }
    assert(s@.take(s@.len() as int) == s@);
    r
}

/// The texts held by `v`.
pub open spec fn texts(v: Seq<String>) -> Seq<Seq<char>> {
    v.map_values(|w: String| w@)
}

/// Splits `s` into its words.
pub fn split_words(s: &str) -> (r: Vec<String>)
    ensures
        texts(r@) == words(s@),
{
    let cs = chars_of(s);
    let mut r: Vec<String> = Vec::new();
    let mut i: usize = 0;
    assert(s@.skip(0) == s@);
    assert(texts(r@) + words(s@) == words(s@));
    while i < cs.len()
        invariant
            cs@ == s@,
            i <= cs@.len(),
            texts(r@) + words(s@.skip(i as int)) == words(s@),
        decreases cs@.len() - i,
    {
        let ghost rest = s@.skip(i as int);
        if white_space(cs[i]) {
            assert(rest.drop_first() == s@.skip(i + 1));
            i = i + 1;
        } else {
            let start = i;
            proof {
                assert(s@.skip(i as int).take(0) =~= Seq::<char>::empty());
            }
            while i < cs.len() && !white_space(cs[i])
                invariant
                    cs@ == s@,
                    start <= i <= cs@.len(),
                    rest == s@.skip(start as int),
                    forall|k: int| start <= k < i ==> !is_white_space(#[trigger] s@[k]),
                decreases cs@.len() - i,
            {
                i = i + 1;
            }
            proof {
                lemma_word_len_at(rest, i - start);
                assert(rest.take(i - start) == s@.subrange(start as int, i as int));
                assert(rest.skip(i - start) == s@.skip(i as int));
            }
            let ghost before = r@;
            r.push(s.substring_char(start, i).to_owned());
            assert(texts(r@) =~= texts(before) + seq![rest.take(i - start)]);
            assert(texts(r@) + words(s@.skip(i as int)) =~= texts(before) + (seq![
                rest.take(i - start),
            ] + words(s@.skip(i as int))));
        }
    }
    assert(s@.skip(i as int) == Seq::<char>::empty());
    assert(texts(r@) + Seq::<Seq<char>>::empty() =~= texts(r@));
    r
}

/// A run that is free of white space and cannot be extended is the first word.
pub proof fn lemma_word_len_at(s: Seq<char>, n: int)
    requires
        0 <= n <= s.len(),
        forall|i: int| 0 <= i < n ==> !is_white_space(#[trigger] s[i]),
        n < s.len() ==> is_white_space(s[n]),
    ensures
        word_len(s) == n,
{
    lemma_word_len_bound(s);
    if word_len(s) < n {
        assert(!is_white_space(s[word_len(s) as int]));
    }
}

pub open spec fn is_digit(c: char) -> bool {
    '0' <= c <= '9'
}

/// The number that the decimal digits of `s` denote.
pub open spec fn decimal_value(s: Seq<char>) -> nat
    decreases s.len(),
{
    if s.len() == 0 {
        0
    } else {
        (10 * decimal_value(s.drop_last()) + (s.last() as nat - '0' as nat)) as nat
    }
}

/// The digits of a decimal number, without the `+` that may stand before them.
pub open spec fn unsigned_part(s: Seq<char>) -> Seq<char> {
    if s.len() > 0 && s[0] == '+' {
        s.drop_first()
    } else {
        s
    }
}

/// What `s` denotes as an unsigned decimal number: an optional `+` and one or
/// more digits, with a value that fits in 64 bits.
pub open spec fn u64_value(s: Seq<char>) -> Option<u64> {
    let digits = unsigned_part(s);
    if digits.len() > 0 && (forall|i: int| 0 <= i < digits.len() ==> is_digit(#[trigger] digits[i]))
        && decimal_value(digits) <= u64::MAX {
        Some(decimal_value(digits) as u64)
    } else {
        None
    }
}

proof fn lemma_decimal_value_prefix(s: Seq<char>, n: int)
    requires
        0 <= n <= s.len(),
        forall|i: int| 0 <= i < s.len() ==> is_digit(#[trigger] s[i]),
    ensures
        decimal_value(s.take(n)) <= decimal_value(s),
    decreases s.len(),
{
    if n < s.len() {
        lemma_decimal_value_prefix(s.drop_last(), n);
        assert(s.drop_last().take(n) == s.take(n));
        assert(is_digit(s[s.len() - 1]));
    } else {
        assert(s.take(n) == s);
    }
}

/// Parses an unsigned decimal number.
pub fn parse_u64(s: &str) -> (r: Option<u64>)
    ensures
        r == u64_value(s@),
{
    let cs = chars_of(s);
    let first: usize = if cs.len() > 0 && cs[0] == '+' {
        1
    } else {
        0
    };
    let ghost digits = unsigned_part(s@);
    assert(digits == s@.skip(first as int));
    if first == cs.len() {
        return None;
    }
    let mut value: u64 = 0;
    let mut i: usize = first;
    assert(digits.take(0) =~= Seq::<char>::empty());
    while i < cs.len()
        invariant
            cs@ == s@,
            first <= i <= cs@.len(),
            digits == s@.skip(first as int),
            digits == unsigned_part(s@),
            value == decimal_value(digits.take(i - first)),
            forall|k: int| 0 <= k < i - first ==> is_digit(#[trigger] digits[k]),
        decreases cs@.len() - i,
    {
        let c = cs[i];
        assert(c == digits[i - first]);
        if !('0' <= c && c <= '9') {
            return None;
        }
        let digit: u64 = (c as u32 - '0' as u32) as u64;
        let ghost next = digits.take(i - first + 1);
        proof {
            assert(next.drop_last() == digits.take(i - first));
            assert(next.last() == c);
            assert(decimal_value(next) == 10 * value + digit);
            if forall|k: int| 0 <= k < digits.len() ==> is_digit(#[trigger] digits[k]) {
                lemma_decimal_value_prefix(digits, i - first + 1);
            }
        }
        let scaled: u64 = match value.checked_mul(10) {
            Some(v) => v,
            None => return None,
        };
        value = match scaled.checked_add(digit) {
            Some(v) => v,
            None => return None,
        };
        i = i + 1;
    }
    assert(digits.take(i - first) == digits);
    Some(value)
}

/// Tests whether two texts are equal.
pub fn same(a: &str, b: &str) -> (r: bool)
    ensures
        r == (a@ == b@),
{
    let x = chars_of(a);
    let y = chars_of(b);
    if x.len() != y.len() {
        return false;
    }
    for i in 0..x.len()
        invariant
            x@ == a@,
            y@ == b@,
            x@.len() == y@.len(),
            forall|k: int| 0 <= k < i ==> x@[k] == y@[k],
    {
        if x[i] != y[i] {
            return false;
        }
    }
    assert(a@ =~= b@);
    true
}

/// Tests whether `s` starts with `prefix`.
pub fn starts_with(s: &str, prefix: &str) -> (r: bool)
    ensures
        r == prefix@.is_prefix_of(s@),
{
    let x = chars_of(s);
    let y = chars_of(prefix);
    y.len() <= x.len() && matches_at(&x, 0, &y)
}

/// Tests whether `s` ends with `suffix`.
pub fn ends_with(s: &str, suffix: &str) -> (r: bool)
    ensures
        r == suffix@.is_suffix_of(s@),
{
    let x = chars_of(s);
    let y = chars_of(suffix);
    y.len() <= x.len() && matches_at(&x, x.len() - y.len(), &y)
}

/// Tests whether the characters of `y` stand in `x` at position `at`.
pub fn matches_at(x: &Vec<char>, at: usize, y: &Vec<char>) -> (r: bool)
    requires
        at + y@.len() <= x@.len(),
    ensures
        r == (x@.subrange(at as int, at + y@.len()) == y@),
{
    let len = x.len();
    for k in 0..y.len()
        invariant
            len == x@.len(),
            at + y@.len() <= len,
            forall|j: int| 0 <= j < k ==> x@[at + j] == y@[j],
    {
        if x[at + k] != y[k] {
            assert(x@.subrange(at as int, at + y@.len())[k as int] == x@[at + k]);
            return false;
        }
    }
    assert(x@.subrange(at as int, at + y@.len()) =~= y@);
    true
}

/// Tests whether one of `list` is `text`.
pub fn contains_text(list: &Vec<String>, text: &str) -> (r: bool)
    ensures
        r == texts(list@).contains(text@),
{
    for i in 0..list.len()
        invariant
            forall|k: int| 0 <= k < i ==> texts(list@)[k] != text@,
    {
        if same(list[i].as_str(), text) {
            assert(texts(list@)[i as int] == text@);
            return true;
        }
    }
    false
}

/// Copies a list of texts.
pub fn clone_texts(list: &Vec<String>) -> (r: Vec<String>)
    ensures
        texts(r@) == texts(list@),
{
    let mut r: Vec<String> = Vec::new();
    for i in 0..list.len()
        invariant
            texts(r@) == texts(list@).take(i as int),
    {
        let ghost before = r@;
        r.push(list[i].clone());
        assert(texts(r@) =~= texts(before).push(texts(list@)[i as int]));
    }
    assert(texts(list@).take(list@.len() as int) == texts(list@));
    r
}

/// `a` followed by `b`.
pub fn join2(a: &str, b: &str) -> (r: String)
    ensures
        r@ == a@ + b@,
{
    let mut r = a.to_owned();
    r.append(b);
    r
}

/// `a` followed by `b` and `c`.
pub fn join3(a: &str, b: &str, c: &str) -> (r: String)
    ensures
        r@ == a@ + b@ + c@,
{
    let mut r = join2(a, b);
    r.append(c);
    r
}

/// Whether `text` is `prefix` followed by the words in which `why` describes itself.
pub open spec fn describes<T: core::fmt::Display>(
    why: T,
    prefix: Seq<char>,
    text: Seq<char>,
) -> bool {
    exists|words: String| #[trigger]
        to_string_from_display_ensures::<T>(&why, words) && text == prefix + words@
}

/// Puts the words in which `why` describes itself behind `prefix`.
pub fn described<T: core::fmt::Display>(prefix: &str, why: &T) -> (r: String)
    ensures
        describes(*why, prefix@, r@),
{
    let words = why.to_string();
    join2(prefix, words.as_str())
}

/// The characters of `s` after its first `n` bytes.
pub open spec fn after_bytes(s: Seq<char>, n: int) -> Seq<char> {
    decode_utf8(encode_utf8(s).subrange(n, encode_utf8(s).len() as int))
}

/// Whether a character of `s` starts, or `s` ends, right after its first `n`
/// bytes.
pub open spec fn splits_at(s: Seq<char>, n: int) -> bool {
    is_char_boundary(encode_utf8(s), n)
}

/// The characters of `s` after its first `n` bytes.
pub fn skip_bytes(s: &str, n: usize) -> (r: &str)
    requires
        splits_at(s@, n as int),
    ensures
        r@ == after_bytes(s@, n as int),
{
    broadcast use encode_utf8_decode_utf8;

    s.split_at(n).1
}

proof fn lemma_one_byte(c: char)
    requires
        is_one_byte(c),
    ensures
        encode_scalar(c as u32).len() == 1,
        is_leading_byte_width_1(encode_scalar(c as u32)[0]),
{
    let v = c as u32;
    assert(leading_byte_width_1(v) <= 0x7f) by (bit_vector)
        requires
            v <= 0x7f,
    ;
}

proof fn lemma_encode_first(s: Seq<char>)
    requires
        s.len() > 0,
        is_one_byte(s[0]),
    ensures
        encode_utf8(s).len() == 1 + encode_utf8(s.drop_first()).len(),
        encode_utf8(s).subrange(1, encode_utf8(s).len() as int) == encode_utf8(s.drop_first()),
        is_leading_byte_width_1(encode_utf8(s)[0]),
{
    lemma_one_byte(s[0]);
    assert(encode_utf8(s).subrange(1, encode_utf8(s).len() as int) =~= encode_utf8(s.drop_first()));
}

/// A text of one character takes one byte if that character does, and an empty text
/// takes none.
pub proof fn lemma_encoded_len_of_char(s: Seq<char>)
    ensures
        s.len() == 0 ==> encode_utf8(s).len() == 0,
        s.len() == 1 && is_one_byte(s[0]) ==> encode_utf8(s).len() == 1,
{
    if s.len() == 1 && is_one_byte(s[0]) {
        lemma_encode_first(s);
        assert(encode_utf8(s.drop_first()).len() == 0);
    }
}

/// In a text whose first `n` characters take one byte each, skipping `n` bytes
/// is skipping `n` characters.
pub proof fn lemma_after_one_byte_chars(s: Seq<char>, n: nat)
    requires
        n <= s.len(),
        forall|i: int| 0 <= i < n ==> is_one_byte(#[trigger] s[i]),
    ensures
        splits_at(s, n as int),
        after_bytes(s, n as int) == s.skip(n as int),
    decreases n,
{
    broadcast use encode_utf8_decode_utf8, encode_utf8_valid_utf8;

    let bytes = encode_utf8(s);
    if n == 0 {
        assert(bytes.subrange(0, bytes.len() as int) == bytes);
        assert(s.skip(0) == s);
    } else {
        let rest = s.drop_first();
        lemma_encode_first(s);
        lemma_after_one_byte_chars(rest, (n - 1) as nat);
        encode_utf8_first_scalar(s);
        let tail = encode_utf8(rest);
        assert(pop_first_scalar(bytes) == tail);
        assert(bytes.subrange(n as int, bytes.len() as int) == tail.subrange(
            n - 1,
            tail.len() as int,
        ));
        assert(rest.skip(n - 1) == s.skip(n as int));
    }
}

proof fn lemma_decode_len(bytes: Seq<u8>)
    requires
        valid_utf8(bytes),
    ensures
        decode_utf8(bytes).len() <= bytes.len(),
    decreases bytes.len(),
{
    if bytes.len() > 0 {
        lemma_decode_len(pop_first_scalar(bytes));
    }
}

/// Skipping `n` bytes leaves the end of a text, and skips at most `n` characters.
pub proof fn lemma_after_bytes(s: Seq<char>, n: int)
    requires
        splits_at(s, n),
    ensures
        after_bytes(s, n).is_suffix_of(s),
        after_bytes(s, n).len() >= s.len() - n,
{
    broadcast use encode_utf8_decode_utf8, encode_utf8_valid_utf8;

    let bytes = encode_utf8(s);
    valid_utf8_split(bytes, n);
    decode_utf8_split(bytes, n);
    lemma_splits_bound(bytes, n);
    lemma_decode_len(bytes.subrange(0, n));
}

proof fn lemma_splits_bound(bytes: Seq<u8>, n: int)
    requires
        valid_utf8(bytes),
        is_char_boundary(bytes, n),
    ensures
        0 <= n <= bytes.len(),
{
}

/// `to`, then every character of `s` followed by `to`.
pub open spec fn interleave(s: Seq<char>, to: Seq<char>) -> Seq<char>
    decreases s.len(),
{
    if s.len() == 0 {
        to
    } else {
        to + seq![s[0]] + interleave(s.drop_first(), to)
    }
}

/// `s` with every occurrence of `from` replaced by `to`. Occurrences are taken
/// from the left and do not overlap; the empty text occurs before every
/// character and at the end.
pub open spec fn replace_all(s: Seq<char>, from: Seq<char>, to: Seq<char>) -> Seq<char>
    decreases s.len(),
{
    if from.len() == 0 {
        interleave(s, to)
    } else if s.len() == 0 {
        s
    } else if from.is_prefix_of(s) {
        to + replace_all(s.skip(from.len() as int), from, to)
    } else {
        seq![s[0]] + replace_all(s.drop_first(), from, to)
    }
}

/// Replaces every occurrence of `from` in `s` by `to`.
pub fn replace(s: &str, from: &str, to: &str) -> (r: String)
    ensures
        r@ == replace_all(s@, from@, to@),
{
    let cs = chars_of(s);
    let pattern = chars_of(from);
    let mut r = String::new();
    let mut i: usize = 0;
    assert(s@.skip(0) == s@);
    if pattern.len() == 0 {
        while i < cs.len()
            invariant
                cs@ == s@,
                i <= cs@.len(),
                r@ + interleave(s@.skip(i as int), to@) == interleave(s@, to@),
            decreases cs@.len() - i,
        {
            let ghost rest = s@.skip(i as int);
            let ghost before = r@;
            r.append(to);
            r.append(s.substring_char(i, i + 1));
            proof {
                assert(rest.drop_first() == s@.skip(i + 1));
                assert(s@.subrange(i as int, i + 1) == seq![rest[0]]);
                assert(r@ + interleave(s@.skip(i + 1), to@) == before + (to@ + seq![rest[0]]
                    + interleave(s@.skip(i + 1), to@)));
            }
            i = i + 1;
        }
        r.append(to);
        return r;
    }
    while i < cs.len()
        invariant
            cs@ == s@,
            pattern@ == from@,
            from@.len() > 0,
            i <= cs@.len(),
            r@ + replace_all(s@.skip(i as int), from@, to@) == replace_all(s@, from@, to@),
        decreases cs@.len() - i,
    {
        let ghost rest = s@.skip(i as int);
        let ghost before = r@;
        if pattern.len() <= cs.len() - i && matches_at(&cs, i, &pattern) {
            r.append(to);
            proof {
                assert(rest.subrange(0, from@.len() as int) == s@.subrange(
                    i as int,
                    i + from@.len(),
                ));
                assert(from@.is_prefix_of(rest));
                assert(rest.skip(from@.len() as int) == s@.skip(i + from@.len()));
                assert(r@ + replace_all(s@.skip(i + from@.len()), from@, to@) == before + (to@
                    + replace_all(s@.skip(i + from@.len()), from@, to@)));
            }
            i = i + pattern.len();
        } else {
            r.append(s.substring_char(i, i + 1));
            proof {
                if from@.is_prefix_of(rest) {
                    assert(rest.subrange(0, from@.len() as int) == s@.subrange(
                        i as int,
                        i + from@.len(),
                    ));
                }
                assert(rest.drop_first() == s@.skip(i + 1));
                assert(s@.subrange(i as int, i + 1) == seq![rest[0]]);
                assert(r@ + replace_all(s@.skip(i + 1), from@, to@) == before + (seq![rest[0]]
                    + replace_all(s@.skip(i + 1), from@, to@)));
            }
            i = i + 1;
        }
    }
    assert(s@.skip(i as int) == Seq::<char>::empty());
    assert(r@ + Seq::<char>::empty() == r@);
    r
}

/// Replacing one character by one other character keeps every other character
/// in its place.
pub proof fn lemma_replace_char(s: Seq<char>, a: char, b: char)
    ensures
        replace_all(s, seq![a], seq![b]) == s.map_values(
            |c: char|
                if c == a {
                    b
                } else {
                    c
                },
        ),
    decreases s.len(),
{
    let f = |c: char|
        if c == a {
            b
        } else {
            c
        };
    if s.len() > 0 {
        let rest = s.drop_first();
        lemma_replace_char(rest, a, b);
        assert(s.skip(1) == rest);
        assert(seq![a].is_prefix_of(s) <==> s[0] == a) by {
            assert(s.subrange(0, 1) == seq![s[0]]);
            assert(seq![a][0] == a);
        }
        assert(s.map_values(f) =~= seq![f(s[0])] + rest.map_values(f));
    } else {
        assert(replace_all(s, seq![a], seq![b]) =~= s.map_values(f));
    }
}

/// The decimal digits of `n`.
pub open spec fn decimal(n: nat) -> Seq<char>
    decreases n,
{
    let digit = "0123456789"@[(n % 10) as int];
    if n < 10 {
        seq![digit]
    } else {
        decimal(n / 10).push(digit)
    }
}

/// The decimal digits of a number denote that number, and are digits indeed.
pub proof fn lemma_decimal(n: nat)
    ensures
        decimal(n).len() > 0,
        forall|i: int| 0 <= i < decimal(n).len() ==> is_digit(#[trigger] decimal(n)[i]),
        decimal_value(decimal(n)) == n,
    decreases n,
{
    reveal_strlit("0123456789");
    let s = decimal(n);
    let d = n % 10;
    assert(d == 0 || d == 1 || d == 2 || d == 3 || d == 4 || d == 5 || d == 6 || d == 7 || d == 8
        || d == 9);
    let digit = "0123456789"@[d as int];
    assert(is_digit(digit) && digit as nat - '0' as nat == d);
    if n < 10 {
        assert(s.drop_last() =~= Seq::<char>::empty());
        assert(decimal_value(s.drop_last()) == 0);
    } else {
        lemma_decimal(n / 10);
        assert(s.drop_last() =~= decimal(n / 10));
        assert forall|i: int| 0 <= i < s.len() implies is_digit(#[trigger] s[i]) by {
            if i < s.len() - 1 {
                assert(s[i] == decimal(n / 10)[i]);
            }
        }
    }
}

/// A number that fits in 64 bits is read back from its decimal digits.
pub proof fn decimal_is_read_back(n: u64)
    ensures
        u64_value(decimal(n as nat)) == Some(n),
{
    lemma_decimal(n as nat);
    assert(is_digit(decimal(n as nat)[0]));
}

/// Whether `s` holds no white space.
pub open spec fn is_unbroken(s: Seq<char>) -> bool {
    forall|i: int| 0 <= i < s.len() ==> !is_white_space(#[trigger] s[i])
}

/// What stands before white space or the end of a text is its first word.
pub proof fn lemma_first_word(word: Seq<char>, rest: Seq<char>)
    requires
        word.len() > 0,
        is_unbroken(word),
        rest.len() > 0 ==> is_white_space(rest[0]),
    ensures
        words(word + rest) == seq![word] + words(rest),
{
    let s = word + rest;
    assert forall|i: int| 0 <= i < word.len() implies !is_white_space(#[trigger] s[i]) by {
        assert(s[i] == word[i]);
    }
    if rest.len() > 0 {
        assert(s[word.len() as int] == rest[0]);
    }
    lemma_word_len_at(s, word.len() as int);
    assert(!is_white_space(s[0]));
    assert(s.take(word.len() as int) =~= word);
    assert(s.skip(word.len() as int) =~= rest);
}

/// Words are not empty and hold no white space.
pub proof fn words_are_unbroken(s: Seq<char>, i: int)
    requires
        0 <= i < words(s).len(),
    ensures
        words(s)[i].len() > 0,
        is_unbroken(words(s)[i]),
    decreases s.len(),
{
    if is_white_space(s[0]) {
        words_are_unbroken(s.drop_first(), i);
    } else {
        lemma_word_len_bound(s);
        let n = word_len(s) as int;
        if i == 0 {
            let word = s.take(n);
            assert forall|k: int| 0 <= k < word.len() implies !is_white_space(
                #[trigger] word[k],
            ) by {
                assert(word[k] == s[k]);
            }
        } else {
            words_are_unbroken(s.skip(n), i - 1);
        }
    }
}

/// White space is the tab, the line feed, the vertical tab, the form feed, the carriage return,
/// the space, and the spaces and separators of Unicode beyond them; nothing else is.
pub proof fn white_space_is_known(c: char)
    ensures
        is_white_space(c) <==> {
            let code = c as int;
            ||| code == 9 || code == 10 || code == 11 || code == 12 || code == 13 || code == 32
            ||| code == 0x85 || code == 0xa0 || code == 0x1680
            ||| (0x2000 <= code && code <= 0x200a)
            ||| code == 0x2028 || code == 0x2029 || code == 0x202f || code == 0x205f || code
                == 0x3000
        },
{
}

/// A text without white space is one word, and a text without characters holds none.
pub proof fn unbroken_text_is_one_word(word: Seq<char>)
    requires
        forall|i: int| 0 <= i < word.len() ==> !is_white_space(#[trigger] word[i]),
    ensures
        words(word) == if word.len() == 0 {
            Seq::<Seq<char>>::empty()
        } else {
            seq![word]
        },
{
    if word.len() > 0 {
        assert(word + Seq::<char>::empty() =~= word);
        lemma_first_word(word, Seq::empty());
        assert(words(Seq::<char>::empty()) =~= Seq::empty());
        assert(seq![word] + Seq::<Seq<char>>::empty() =~= seq![word]);
    } else {
        assert(words(word) =~= Seq::empty());
    }
}

/// White space parts words: the words of what stands before it come first, then those of what
/// stands behind it.
pub proof fn white_space_parts_words(before: Seq<char>, space: char, after: Seq<char>)
    requires
        is_white_space(space),
    ensures
        words(before.push(space) + after) == words(before) + words(after),
    decreases before.len(),
{
    let s = before.push(space) + after;
    if before.len() == 0 {
        assert(s[0] == space);
        assert(s.drop_first() =~= after);
        assert(words(before) + words(after) =~= words(after));
    } else if is_white_space(before[0]) {
        let rest = before.drop_first();
        assert(s[0] == before[0]);
        assert(s.drop_first() =~= rest.push(space) + after);
        white_space_parts_words(rest, space, after);
    } else {
        lemma_word_len_bound(before);
        let n = word_len(before) as int;
        let rest = before.skip(n);
        assert forall|i: int| 0 <= i < n implies !is_white_space(#[trigger] s[i]) by {
            assert(s[i] == before[i]);
        }
        if n < before.len() {
            assert(s[n] == before[n]);
        } else {
            assert(s[n] == space);
        }
        lemma_word_len_at(s, n);
        assert(s[0] == before[0]);
        assert(s.take(n) =~= before.take(n));
        assert(s.skip(n) =~= rest.push(space) + after);
        white_space_parts_words(rest, space, after);
        assert(words(s) =~= seq![before.take(n)] + (words(rest) + words(after)));
        assert(words(before) + words(after) =~= seq![before.take(n)] + (words(rest) + words(
            after,
        )));
    }
}

/// A digit denotes itself as a number, also behind a plus sign; without a digit there is no
/// number.
pub proof fn one_digit_is_a_number(d: char)
    ensures
        u64_value(seq![d]) == if '0' <= d <= '9' {
            Some((d as int - 48) as u64)
        } else {
            None
        },
        u64_value(seq!['+', d]) == if '0' <= d <= '9' {
            Some((d as int - 48) as u64)
        } else {
            None
        },
        u64_value(seq![]) is None,
{
    let one = seq![d];
    let two = seq!['+', d];
    assert(two.drop_first() =~= one);
    assert(one[0] == d);
    assert(one.drop_last() =~= Seq::<char>::empty());
    assert(decimal_value(one.drop_last()) == 0);
    assert(unsigned_part(two) == one);
    if d == '+' {
        assert(one.drop_first() =~= Seq::<char>::empty());
    } else {
        assert(unsigned_part(one) == one);
    }
    if !('0' <= d <= '9') {
        assert(!is_digit(one[0]));
    }
}

/// One more digit makes ten times the number and that digit, as long as it fits in 64 bits; what
/// is no number becomes none by one more digit.
pub proof fn further_digit_counts_tenfold(s: Seq<char>, d: char)
    requires
        '0' <= d <= '9',
        s.len() > 0,
        s != seq!['+'],
    ensures
        u64_value(s.push(d)) == match u64_value(s) {
            Some(n) => if 10 * n + (d as int - 48) <= u64::MAX {
                Some((10 * n + (d as int - 48)) as u64)
            } else {
                None
            },
            None => None,
        },
{
    let t = s.push(d);
    let digits = unsigned_part(s);
    let more = unsigned_part(t);
    assert(more =~= digits.push(d));
    if s[0] == '+' && s.len() == 1 {
        assert(s =~= seq!['+']);
    }
    assert(digits.len() > 0);
    assert(more.drop_last() =~= digits);
    assert(more.last() == d);
    assert(decimal_value(more) == 10 * decimal_value(digits) + (d as int - 48));
    if forall|i: int| 0 <= i < digits.len() ==> is_digit(#[trigger] digits[i]) {
        assert forall|i: int| 0 <= i < more.len() implies is_digit(#[trigger] more[i]) by {
            if i < digits.len() {
                assert(more[i] == digits[i]);
            }
        }
    } else {
        let i = choose|i: int| 0 <= i < digits.len() && !is_digit(#[trigger] digits[i]);
        assert(more[i] == digits[i]);
    }
}

/// A text in which something else stands than digits, but for a plus sign at its start, is no
/// number.
pub proof fn other_characters_make_no_number(s: Seq<char>, i: int)
    requires
        0 <= i < s.len(),
        !('0' <= s[i] <= '9'),
        s[i] == '+' ==> i > 0,
    ensures
        u64_value(s) is None,
{
    let digits = unsigned_part(s);
    if s[0] == '+' {
        assert(digits[i - 1] == s[i]);
    } else {
        assert(digits[i] == s[i]);
    }
}

/// A number below ten is written as its digit, and any other as the digits of a tenth of it and
/// its last digit.
pub proof fn digits_are_written_in_order(n: nat, d: nat)
    requires
        d < 10,
    ensures
        decimal(d) == seq![(48 + d) as char],
        n > 0 ==> decimal(10 * n + d) == decimal(n).push((48 + d) as char),
{
    reveal_strlit("0123456789");
    assert(d == 0 || d == 1 || d == 2 || d == 3 || d == 4 || d == 5 || d == 6 || d == 7 || d == 8
        || d == 9);
    assert("0123456789"@[d as int] == (48 + d) as char);
    let m: nat = 10 * n + d;
    assert(m % 10 == d && m / 10 == n);
}

/// A text in which `from` stands nowhere is left as it is.
pub proof fn replacing_needs_an_occurrence(s: Seq<char>, from: Seq<char>, to: Seq<char>)
    requires
        from.len() > 0,
        forall|i: int|
            0 <= i <= s.len() - from.len() ==> #[trigger] s.subrange(i, i + from.len()) != from,
    ensures
        replace_all(s, from, to) == s,
    decreases s.len(),
{
    if s.len() > 0 {
        if from.is_prefix_of(s) {
            assert(s.subrange(0int, 0int + from.len()) == from);
        }
        let rest = s.drop_first();
        assert forall|i: int| 0 <= i <= rest.len() - from.len() implies #[trigger] rest.subrange(
            i,
            i + from.len(),
        ) != from by {
            assert(rest.subrange(i, i + from.len()) =~= s.subrange(i + 1, i + 1 + from.len()));
        }
        replacing_needs_an_occurrence(rest, from, to);
        assert(seq![s[0]] + rest =~= s);
    }
}

/// Where `from` stands for the first time, `to` takes its place; what stands before is kept, and
/// what follows is dealt with in the same way.
pub proof fn first_occurrence_is_replaced(
    before: Seq<char>,
    from: Seq<char>,
    after: Seq<char>,
    to: Seq<char>,
)
    requires
        from.len() > 0,
        forall|i: int|
            0 <= i < before.len() ==> #[trigger] (before + from + after).subrange(
                i,
                i + from.len(),
            ) != from,
    ensures
        replace_all(before + from + after, from, to) == before + to + replace_all(after, from, to),
    decreases before.len(),
{
    let s = before + from + after;
    if before.len() == 0 {
        assert(s.subrange(0, from.len() as int) =~= from);
        assert(s.skip(from.len() as int) =~= after);
        assert(before + to =~= to);
    } else {
        if from.is_prefix_of(s) {
            assert(s.subrange(0int, 0int + from.len()) == from);
        }
        let rest = before.drop_first();
        let t = rest + from + after;
        assert(s.drop_first() =~= t);
        assert forall|i: int| 0 <= i < rest.len() implies #[trigger] t.subrange(
            i,
            i + from.len(),
        ) != from by {
            assert(t.subrange(i, i + from.len()) =~= s.subrange(i + 1, i + 1 + from.len()));
        }
        first_occurrence_is_replaced(rest, from, after, to);
        assert(seq![s[0]] + (rest + to + replace_all(after, from, to)) =~= before + to
            + replace_all(after, from, to));
    }
}

/// The empty text stands before every character and at the end.
pub proof fn empty_text_stands_everywhere(s: Seq<char>, c: char, to: Seq<char>)
    ensures
        replace_all(seq![], seq![], to) == to,
        replace_all(seq![c] + s, seq![], to) == to + seq![c] + replace_all(s, seq![], to),
{
    let t = seq![c] + s;
    assert(t[0] == c);
    assert(t.drop_first() =~= s);
}

proof fn lemma_encode_join(a: Seq<char>, b: Seq<char>)
    ensures
        encode_utf8(a + b) == encode_utf8(a) + encode_utf8(b),
    decreases a.len(),
{
    if a.len() == 0 {
        assert(a + b =~= b);
        assert(encode_utf8(a) + encode_utf8(b) =~= encode_utf8(b));
    } else {
        let s = a + b;
        assert(s[0] == a[0]);
        assert(s.drop_first() =~= a.drop_first() + b);
        lemma_encode_join(a.drop_first(), b);
        assert(encode_utf8(s) =~= encode_utf8(a) + encode_utf8(b));
    }
}

/// A text can be parted behind every one of its characters, and what follows on as many bytes as
/// the first part takes is the second.
pub proof fn text_is_parted_by_bytes(a: Seq<char>, b: Seq<char>)
    ensures
        splits_at(a + b, encode_utf8(a).len() as int),
        after_bytes(a + b, encode_utf8(a).len() as int) == b,
    decreases a.len(),
{
    broadcast use encode_utf8_decode_utf8, encode_utf8_valid_utf8;

    let s = a + b;
    let bytes = encode_utf8(s);
    let n = encode_utf8(a).len() as int;
    lemma_encode_join(a, b);
    assert(bytes.subrange(n, bytes.len() as int) =~= encode_utf8(b));
    if a.len() > 0 {
        let rest = a.drop_first();
        encode_utf8_first_scalar(s);
        assert(s[0] == a[0]);
        assert(s.drop_first() =~= rest + b);
        assert(pop_first_scalar(bytes) =~= encode_utf8(rest + b));
        text_is_parted_by_bytes(rest, b);
        assert(n == encode_scalar(a[0] as u32).len() + encode_utf8(rest).len());
    }
}

/// A text cannot be parted anywhere else: where it can be after `n` bytes, some of its first
/// characters take these bytes.
pub proof fn text_is_parted_between_characters(s: Seq<char>, n: int)
    requires
        splits_at(s, n),
    ensures
        exists|k: int| 0 <= k <= s.len() && #[trigger] encode_utf8(s.take(k)).len() == n,
{
    broadcast use encode_utf8_decode_utf8, encode_utf8_valid_utf8, decode_utf8_encode_utf8;

    let bytes = encode_utf8(s);
    valid_utf8_split(bytes, n);
    decode_utf8_split(bytes, n);
    lemma_splits_bound(bytes, n);
    let first = decode_utf8(bytes.subrange(0, n));
    let k = first.len() as int;
    assert(s.take(k) =~= first);
    assert(encode_utf8(s.take(k)).len() == n);
}

/// The texts of a list of strings are those of the single strings, in the same order.
pub proof fn texts_are_those_of_the_strings(v: Seq<String>, i: int)
    requires
        0 <= i < v.len(),
    ensures
        texts(v).len() == v.len(),
        texts(v)[i] == v[i]@,
{
}

} // verus!
