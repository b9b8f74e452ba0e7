//! Text primitives: tolerant integer reading, marker stripping and
//! whitespace tokens.

use vstd::prelude::*;

verus! {

/// The texts of a list of strings, as sequences of characters.
pub open spec fn texts(list: Seq<String>) -> Seq<Seq<char>> {
    Seq::new(list.len(), |i: int| list[i]@)
}

/// The texts of a list of rows of strings.
pub open spec fn grid(rows: Seq<Vec<String>>) -> Seq<Seq<Seq<char>>> {
    Seq::new(rows.len(), |i: int| texts(rows[i]@))
}

/// Whether `c` is one of the ASCII decimal digits `0` to `9`.
pub open spec fn is_decimal_digit(c: char) -> bool {
    48 <= c as u32 <= 57
}

/// The number that a string of decimal digits writes, most significant first.
pub open spec fn digits_value(s: Seq<char>) -> int
    decreases s.len(),
{
    if s.len() == 0 {
        0
    } else {
        10 * digits_value(s.drop_last()) + (s.last() as u32 - 48)
    }
}

/// Whether `s` is a non-empty string of decimal digits.
pub open spec fn is_digit_string(s: Seq<char>) -> bool {
    s.len() > 0 && forall|i: int| 0 <= i < s.len() ==> is_decimal_digit(#[trigger] s[i])
}

/// The integer that `s` writes in decimal: an optional `+` or `-`, then one
/// or more digits and nothing else. `None` for every other string.
pub open spec fn decimal_integer(s: Seq<char>) -> Option<int> {
    if s.len() > 0 && s[0] == '-' {
        if is_digit_string(s.skip(1)) {
            Some(-digits_value(s.skip(1)))
        } else {
            None
        }
    } else if s.len() > 0 && s[0] == '+' {
        if is_digit_string(s.skip(1)) {
            Some(digits_value(s.skip(1)))
        } else {
            None
        }
    } else if is_digit_string(s) {
        Some(digits_value(s))
    } else {
        None
    }
}

/// What reading `s` as an `i16` gives: its decimal integer where that fits.
pub open spec fn decimal_i16(s: Seq<char>) -> Option<i16> {
    match decimal_integer(s) {
        Some(v) if i16::MIN <= v <= i16::MAX => Some(v as i16),
        _ => None,
    }
}

/// What reading `s` as an `i8` gives: its decimal integer where that fits.
pub open spec fn decimal_i8(s: Seq<char>) -> Option<i8> {
    match decimal_integer(s) {
        Some(v) if i8::MIN <= v <= i8::MAX => Some(v as i8),
        _ => None,
    }
}

/// Calls `str::parse::<i16>`. Trusted: the result is `Some` exactly for an
/// optional sign followed by decimal digits whose value fits an `i16`, and
/// then holds that value; the empty string, a lone sign, any other character
/// and a value out of range all give `None`.
#[verifier::external_body]
fn parse_i16(text: &str) -> (r: Option<i16>)
    ensures
        r == decimal_i16(text@),
{
    text.parse::<i16>().ok()
}

/// Calls `str::parse::<i8>`. Trusted: as for `i16`, with the range of `i8`.
#[verifier::external_body]
fn parse_i8(text: &str) -> (r: Option<i8>)
    ensures
        r == decimal_i8(text@),
{
    text.parse::<i8>().ok()
}

/// An integer read from a cell, and whether the cell failed to hold one.
#[derive(Debug, PartialEq, Eq, Structural)]
pub struct Coerced<T> {
    pub value: T,
    pub defaulted: bool,
}

/// The quota that a cell stands for: its integer, or 0 where it holds none.
pub open spec fn quota_of(s: Seq<char>) -> i16 {
    match decimal_i16(s) {
        Some(v) => v,
        None => 0,
    }
}

/// The score that a cell stands for: its integer, or 0 where it holds none.
pub open spec fn score_of(s: Seq<char>) -> i8 {
    match decimal_i8(s) {
        Some(v) => v,
        None => 0,
    }
}

/// Reads an enrollment quota, falling back to 0 on anything that is not an
/// `i16` in decimal.
pub fn coerce_quota(text: &str) -> (r: Coerced<i16>)
    ensures
        r.value == quota_of(text@),
        r.defaulted <==> decimal_i16(text@) is None,
{
    match parse_i16(text) {
        Some(v) => Coerced { value: v, defaulted: false },
        None => Coerced { value: 0, defaulted: true },
    }
}

/// Reads a minimum score, falling back to 0 on anything that is not an `i8`
/// in decimal.
pub fn coerce_score(text: &str) -> (r: Coerced<i8>)
    ensures
        r.value == score_of(text@),
        r.defaulted <==> decimal_i8(text@) is None,
{
    match parse_i8(text) {
        Some(v) => Coerced { value: v, defaulted: false },
        None => Coerced { value: 0, defaulted: true },
    }
}

/// The number that a digit string writes is never negative.
pub proof fn lemma_digits_value_nonnegative(s: Seq<char>)
    requires
        forall|i: int| 0 <= i < s.len() ==> is_decimal_digit(#[trigger] s[i]),
    ensures
        digits_value(s) >= 0,
    decreases s.len(),
{
    if s.len() > 0 {
        assert forall|i: int| 0 <= i < s.drop_last().len() implies is_decimal_digit(
            #[trigger] s.drop_last()[i],
        ) by {
            assert(s.drop_last()[i] == s[i]);
        }
        lemma_digits_value_nonnegative(s.drop_last());
        assert(is_decimal_digit(s[s.len() - 1]));
    }
}

/// A quota is 0 for every cell that holds no `i16`, and is negative only
/// for a cell that begins with a minus sign.
pub proof fn lemma_quota_sign(s: Seq<char>)
    ensures
        decimal_i16(s) is None ==> quota_of(s) == 0,
        quota_of(s) < 0 ==> s.len() > 1 && s[0] == '-' && is_digit_string(s.skip(1)),
{
    if s.len() > 0 && s[0] == '-' {
    } else if s.len() > 0 && s[0] == '+' {
        if is_digit_string(s.skip(1)) {
            lemma_digits_value_nonnegative(s.skip(1));
        }
    } else if is_digit_string(s) {
        lemma_digits_value_nonnegative(s);
    }
}

/// `s` with every match of the character `from` replaced by the string `to`.
pub open spec fn replaced(s: Seq<char>, from: char, to: Seq<char>) -> Seq<char>
    decreases s.len(),
{
    if s.len() == 0 {
        Seq::empty()
    } else if s.last() == from {
        replaced(s.drop_last(), from, to) + to
    } else {
        replaced(s.drop_last(), from, to).push(s.last())
    }
}

/// `s` with every occurrence of `c` taken out and the rest left in order.
pub open spec fn without_char(s: Seq<char>, c: char) -> Seq<char>
    decreases s.len(),
{
    if s.len() == 0 {
        Seq::empty()
    } else if s.last() == c {
        without_char(s.drop_last(), c)
    } else {
        without_char(s.drop_last(), c).push(s.last())
    }
}

/// Replacing a character by the empty string takes it out.
pub proof fn lemma_replaced_by_nothing(s: Seq<char>, c: char)
    ensures
        replaced(s, c, Seq::empty()) == without_char(s, c),
    decreases s.len(),
{
    if s.len() > 0 {
        lemma_replaced_by_nothing(s.drop_last(), c);
        assert(replaced(s.drop_last(), c, Seq::empty()) + Seq::<char>::empty() =~= replaced(
            s.drop_last(),
            c,
            Seq::empty(),
        ));
    }
}

/// Nothing that is left after taking `c` out is `c`, and nothing was added.
pub proof fn lemma_without_char(s: Seq<char>, c: char)
    ensures
        !without_char(s, c).contains(c),
        without_char(s, c).len() <= s.len(),
        !s.contains(c) ==> without_char(s, c) == s,
    decreases s.len(),
{
    if s.len() > 0 {
        let head = s.drop_last();
        lemma_without_char(head, c);
        let kept = without_char(head, c);
        if s.last() != c {
            assert forall|i: int| 0 <= i < kept.push(s.last()).len() implies kept.push(
                s.last(),
            )[i] != c by {
                if i < kept.len() {
                    assert(kept.contains(kept[i]));
                }
            }
        }
        if !s.contains(c) {
            assert forall|i: int| 0 <= i < head.len() implies head[i] != c by {
                assert(s[i] == head[i]);
            }
            assert(s.last() == s[s.len() - 1]);
            assert(kept.push(s.last()) =~= s);
        }
    }
}

/// Calls `str::replace` with a character as the pattern. Trusted: the result
/// is the text with each occurrence of `from` replaced by `to` and every
/// other character kept in place.
#[verifier::external_body]
fn replace_char(text: &str, from: char, to: &str) -> (r: String)
    ensures
        r@ == replaced(text@, from, to@),
{
    text.replace(from, to)
}

/// The character that marks an annotated program name.
pub const MARKER: char = '*';

/// A program name without its annotation markers: every `*` is removed and
/// all other characters stay as they are.
pub fn strip_marker(text: &str) -> (r: String)
    ensures
        r@ == without_char(text@, MARKER),
        !r@.contains(MARKER),
{
    let r = replace_char(text, MARKER, "");
    proof {
        reveal_strlit("");
        assert(""@ =~= Seq::<char>::empty());
        lemma_replaced_by_nothing(text@, MARKER);
        lemma_without_char(text@, MARKER);
    }
    r
}

/// Whether `char::is_whitespace` holds of `c`: the Unicode property
/// `White_Space`, a fixed table that is not written out here.
pub uninterp spec fn is_white_space(c: char) -> bool;

/// The length of the run of non-whitespace characters that `s` starts with.
pub open spec fn word_run(s: Seq<char>) -> nat
    decreases s.len(),
{
    if s.len() > 0 && !is_white_space(s[0]) {
        1 + word_run(s.drop_first())
    } else {
        0
    }
}

/// A word run stays inside the string, is free of whitespace, and ends at
/// the end of the string or before a whitespace character.
pub proof fn lemma_word_run(s: Seq<char>)
    ensures
        word_run(s) <= s.len(),
        forall|i: int| 0 <= i < word_run(s) ==> !is_white_space(#[trigger] s[i]),
        word_run(s) < s.len() ==> is_white_space(s[word_run(s) as int]),
    decreases s.len(),
{
    if s.len() > 0 && !is_white_space(s[0]) {
        let rest = s.drop_first();
        lemma_word_run(rest);
        assert forall|i: int| 0 <= i < word_run(s) implies !is_white_space(#[trigger] s[i]) by {
            if i > 0 {
                assert(s[i] == rest[i - 1]);
            }
        }
        if word_run(s) < s.len() {
            assert(s[word_run(s) as int] == rest[word_run(rest) as int]);
        }
    }
}

/// The maximal runs of non-whitespace characters of `s`, in order.
pub open spec fn words(s: Seq<char>) -> Seq<Seq<char>>
    decreases s.len(),
{
    if s.len() == 0 {
        Seq::empty()
    } else if is_white_space(s[0]) {
        words(s.drop_first())
    } else {
        proof {
            lemma_word_run(s);
        }
        seq![s.take(word_run(s) as int)] + words(s.skip(word_run(s) as int))
    }
}

/// The first maximal run of non-whitespace characters of `s`, if it has one.
pub open spec fn first_word(s: Seq<char>) -> Option<Seq<char>>
    decreases s.len(),
{
    if s.len() == 0 {
        None
    } else if is_white_space(s[0]) {
        first_word(s.drop_first())
    } else {
        Some(s.take(word_run(s) as int))
    }
}

/// The first word is the head of the words, and is missing exactly when
/// there are none.
pub proof fn lemma_first_word_heads_words(s: Seq<char>)
    ensures
        first_word(s) is None <==> words(s).len() == 0,
        first_word(s) matches Some(w) ==> words(s)[0] == w,
    decreases s.len(),
{
    if s.len() > 0 && is_white_space(s[0]) {
        lemma_first_word_heads_words(s.drop_first());
    }
}

/// A first word is never empty, holds no whitespace, and the string has one
/// exactly when some character of it is not whitespace.
pub proof fn lemma_first_word(s: Seq<char>)
    ensures
        first_word(s) is Some <==> exists|i: int| 0 <= i < s.len() && !is_white_space(#[trigger] s[i]),
        first_word(s) matches Some(w) ==> w.len() > 0 && forall|j: int|
            0 <= j < w.len() ==> !is_white_space(#[trigger] w[j]),
    decreases s.len(),
{
    if s.len() == 0 {
    } else if is_white_space(s[0]) {
        let rest = s.drop_first();
        lemma_first_word(rest);
        if first_word(rest) is Some {
            let i = choose|i: int| 0 <= i < rest.len() && !is_white_space(#[trigger] rest[i]);
            assert(s[i + 1] == rest[i]);
        }
        if exists|i: int| 0 <= i < s.len() && !is_white_space(#[trigger] s[i]) {
            let i = choose|i: int| 0 <= i < s.len() && !is_white_space(#[trigger] s[i]);
            assert(rest[i - 1] == s[i]);
        }
    } else {
        lemma_word_run(s);
        assert(!is_white_space(s[0]));
    }
}

/// Calls `str::split_whitespace` and copies each piece it yields. Trusted:
/// the pieces are the maximal runs of characters for which
/// `char::is_whitespace` is false, in the order they stand in the text.
#[verifier::external_body]
fn split_whitespace(text: &str) -> (r: Vec<String>)
    ensures
        r@.len() == words(text@).len(),
        forall|i: int| 0 <= i < r@.len() ==> (#[trigger] r@[i])@ == words(text@)[i],
        forall|i: int, j: int|
            0 <= i < r@.len() && 0 <= j < r@[i]@.len() ==> !is_white_space(#[trigger] r@[i]@[j]),
{
    text.split_whitespace().map(|piece| piece.to_string()).collect()
}

/// The canonical key of a header label: its first whitespace-delimited
/// token. `None` exactly for a label that is empty or all whitespace.
pub fn first_token(label: &str) -> (r: Option<String>)
    ensures
        r is None <==> first_word(label@) is None,
        r matches Some(key) ==> first_word(label@) == Some(key@),
{
    let mut tokens = split_whitespace(label);
    proof {
        lemma_first_word_heads_words(label@);
    }
    if tokens.len() == 0 {
        None
    } else {
        Some(tokens.swap_remove(0))
    }
}

} // verus!
