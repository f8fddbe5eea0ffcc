//! Text operations: what the standard library's string functions return, stated over the
//! sequence of characters that a string holds.

use vstd::prelude::*;
use vstd::string::StringSliceAdditionalSpecFns;

verus! {

/// The characters with the Unicode property `White_Space`.
pub open spec fn white_space(c: char) -> bool {
    ||| '\u{9}' <= c <= '\u{d}'
    ||| c == ' '
    ||| c == '\u{85}'
    ||| c == '\u{a0}'
    ||| c == '\u{1680}'
    ||| '\u{2000}' <= c <= '\u{200a}'
    ||| c == '\u{2028}'
    ||| c == '\u{2029}'
    ||| c == '\u{202f}'
    ||| c == '\u{205f}'
    ||| c == '\u{3000}'
}

/// `text` without the white space at its start.
pub open spec fn trimmed_start(text: Seq<char>) -> Seq<char>
    decreases text.len(),
{
    if text.len() > 0 && white_space(text.first()) {
        trimmed_start(text.drop_first())
    } else {
        text
    }
}

/// `text` without the white space at its end.
pub open spec fn trimmed_end(text: Seq<char>) -> Seq<char>
    decreases text.len(),
{
    if text.len() > 0 && white_space(text.last()) {
        trimmed_end(text.drop_last())
    } else {
        text
    }
}

/// `text` without the white space at both of its ends.
pub open spec fn trimmed(text: Seq<char>) -> Seq<char> {
    trimmed_end(trimmed_start(text))
}

/// `text` without the run of `c` at its end.
pub open spec fn without_trailing(text: Seq<char>, c: char) -> Seq<char>
    decreases text.len(),
{
    if text.len() > 0 && text.last() == c {
        without_trailing(text.drop_last(), c)
    } else {
        text
    }
}

pub(crate) proof fn lemma_trimmed_start(text: Seq<char>)
    ensures
        trimmed_start(text).len() > 0 ==> !white_space(trimmed_start(text).first())
            && trimmed_start(text).last() == text.last(),
    decreases text.len(),
{
    if text.len() > 0 && white_space(text.first()) {
        lemma_trimmed_start(text.drop_first());
    }
}

pub(crate) proof fn lemma_trimmed_end(text: Seq<char>)
    ensures
        trimmed_end(text).is_prefix_of(text),
        trimmed_end(text).len() > 0 ==> !white_space(trimmed_end(text).last()),
    decreases text.len(),
{
    if text.len() > 0 && white_space(text.last()) {
        lemma_trimmed_end(text.drop_last());
    }
}

pub(crate) proof fn lemma_trimmed_twice(text: Seq<char>)
    ensures
        trimmed(trimmed(text)) == trimmed(text),
{
    lemma_trimmed_start(text);
    lemma_trimmed_end(trimmed_start(text));
}

pub(crate) proof fn lemma_without_trailing(text: Seq<char>, c: char)
    ensures
        without_trailing(text, c).is_prefix_of(text),
        without_trailing(text, c).len() > 0 ==> without_trailing(text, c).last() != c,
    decreases text.len(),
{
    if text.len() > 0 && text.last() == c {
        lemma_without_trailing(text.drop_last(), c);
    }
}

pub(crate) proof fn lemma_trimmed_start_concat(a: Seq<char>, b: Seq<char>)
    ensures
        trimmed_start(a + b) == if trimmed_start(a).len() > 0 {
            trimmed_start(a) + b
        } else {
            trimmed_start(b)
        },
    decreases a.len(),
{
    if a.len() == 0 {
        assert(a + b =~= b);
    } else {
        assert((a + b).drop_first() =~= a.drop_first() + b);
        lemma_trimmed_start_concat(a.drop_first(), b);
    }
}

pub(crate) proof fn lemma_trimmed_end_concat(a: Seq<char>, b: Seq<char>)
    ensures
        trimmed_end(a + b) == if trimmed_end(b).len() > 0 {
            a + trimmed_end(b)
        } else {
            trimmed_end(a)
        },
    decreases b.len(),
{
    if b.len() == 0 {
        assert(a + b =~= a);
    } else {
        assert((a + b).drop_last() =~= a + b.drop_last());
        lemma_trimmed_end_concat(a, b.drop_last());
    }
}

pub(crate) proof fn lemma_trimmed_away(text: Seq<char>)
    requires
        forall|i: int| 0 <= i < text.len() ==> white_space(#[trigger] text[i]),
    ensures
        trimmed_start(text).len() == 0,
        trimmed_end(text).len() == 0,
    decreases text.len(),
{
    if text.len() > 0 {
        lemma_trimmed_away(text.drop_first());
        lemma_trimmed_away(text.drop_last());
    }
}

pub(crate) proof fn lemma_without_trailing_run(text: Seq<char>, run: Seq<char>, c: char)
    requires
        forall|i: int| 0 <= i < run.len() ==> #[trigger] run[i] == c,
    ensures
        without_trailing(text + run, c) == without_trailing(text, c),
    decreases run.len(),
{
    if run.len() == 0 {
        assert(text + run =~= text);
    } else {
        assert((text + run).drop_last() =~= text + run.drop_last());
        lemma_without_trailing_run(text, run.drop_last(), c);
    }
}

/// `str::trim`: takes the characters with the property `White_Space` off both ends.
pub assume_specification[ str::trim ](s: &str) -> (rest: &str)
    ensures
        rest@ == trimmed(s@),
;

/// `str::trim_start`: takes the characters with the property `White_Space` off the start.
pub assume_specification[ str::trim_start ](s: &str) -> (rest: &str)
    ensures
        rest@ == trimmed_start(s@),
;

/// `str::trim_end_matches` with a character as the pattern: takes every repetition of it off
/// the end.
#[verifier::external_body]
pub(crate) fn trim_end_char(text: &str, c: char) -> (rest: &str)
    ensures
        rest@ == without_trailing(text@, c),
{
    text.trim_end_matches(c)
}

/// `str::strip_prefix` with a string as the pattern: the text behind the prefix, or `None`
/// where the text does not start with it.
#[verifier::external_body]
pub(crate) fn strip_prefix<'a>(text: &'a str, prefix: &str) -> (rest: Option<&'a str>)
    ensures
        match rest {
            Some(rest) => prefix@.is_prefix_of(text@) && rest@ == text@.skip(prefix@.len() as int),
            None => !prefix@.is_prefix_of(text@),
        },
{
    text.strip_prefix(prefix)
}

/// `str::ends_with` with a string as the pattern.
#[verifier::external_body]
pub(crate) fn ends_with(text: &str, suffix: &str) -> (found: bool)
    ensures
        found == suffix@.is_suffix_of(text@),
{
    text.ends_with(suffix)
}

/// Where `part` first occurs in `whole`.
pub open spec fn first_at<A>(whole: Seq<A>, part: Seq<A>) -> Option<int>
    decreases whole.len(),
{
    if part.is_prefix_of(whole) {
        Some(0)
    } else if whole.len() == 0 {
        None
    } else {
        match first_at(whole.drop_first(), part) {
            Some(i) => Some(i + 1),
            None => None,
        }
    }
}

pub proof fn lemma_first_at<A>(whole: Seq<A>, part: Seq<A>)
    ensures
        first_at(whole, part) matches Some(i) ==> {
            &&& 0 <= i
            &&& i + part.len() <= whole.len()
            &&& whole.subrange(i, i + part.len()) == part
        },
    decreases whole.len(),
{
    if !part.is_prefix_of(whole) && whole.len() > 0 {
        lemma_first_at(whole.drop_first(), part);
        if let Some(i) = first_at(whole.drop_first(), part) {
            assert(whole.subrange(i + 1, i + 1 + part.len()) =~= whole.drop_first().subrange(
                i,
                i + part.len(),
            ));
        }
    }
}

/// `str::split_once` with a string as the pattern: what stands before and behind the first
/// occurrence of the separator, or `None` where it does not occur.
#[verifier::external_body]
pub(crate) fn split_once<'a>(text: &'a str, separator: &str) -> (parts: Option<
    (&'a str, &'a str),
>)
    ensures
        match (parts, first_at(text@, separator@)) {
            (Some((before, behind)), Some(i)) => {
                &&& before@ == text@.take(i)
                &&& behind@ == text@.skip(i + separator@.len())
            },
            (None, None) => true,
            _ => false,
        },
{
    text.split_once(separator)
}

/// A character in lower case, if it is an ASCII letter.
pub open spec fn ascii_lower(c: char) -> char {
    if 'A' <= c <= 'Z' {
        (c as u32 + 32) as char
    } else {
        c
    }
}

/// A text with its ASCII letters in lower case.
pub open spec fn ascii_lowered(text: Seq<char>) -> Seq<char> {
    text.map_values(|c: char| ascii_lower(c))
}

/// `str::eq_ignore_ascii_case`: whether two texts are the same but for the case of ASCII
/// letters.
pub assume_specification[ str::eq_ignore_ascii_case ](s: &str, other: &str) -> (same: bool)
    ensures
        same == (ascii_lowered(s@) == ascii_lowered(other@)),
;

/// Whether two strings hold the same text.
pub(crate) fn same_text(a: &str, b: &str) -> (same: bool)
    ensures
        same == (a@ == b@),
{
    let x = a.as_bytes();
    let y = b.as_bytes();
    if x.len() != y.len() {
        return false;
    }
    let mut i: usize = 0;
    while i < x.len()
        invariant
            x@ == a.spec_bytes(),
            y@ == b.spec_bytes(),
            x@.len() == y@.len(),
            i <= x@.len(),
            forall|j: int| 0 <= j < i ==> x@[j] == y@[j],
        decreases x@.len() - i,
    {
        if x[i] != y[i] {
            return false;
        }
        i += 1;
    }
    proof {
        assert(x@ =~= y@);
        vstd::utf8::encode_utf8_decode_utf8(a@);
        vstd::utf8::encode_utf8_decode_utf8(b@);
    }
    true
}

/// The number that a decimal digit stands for.
pub open spec fn digit(c: char) -> Option<nat> {
    if '0' <= c <= '9' {
        Some((c as u32 - '0' as u32) as nat)
    } else {
        None
    }
}

/// The number that a run of decimal digits stands for.
pub open spec fn digits_value(digits: Seq<char>) -> Option<nat>
    decreases digits.len(),
{
    if digits.len() == 0 {
        Some(0)
    } else {
        match (digits_value(digits.drop_last()), digit(digits.last())) {
            (Some(high), Some(low)) => Some(10 * high + low),
            _ => None,
        }
    }
}

/// The number that a text stands for as a whole: digits, at least one, after a plus sign or
/// none.
pub open spec fn decimal(text: Seq<char>) -> Option<nat> {
    let digits = if text.len() > 0 && text.first() == '+' {
        text.drop_first()
    } else {
        text
    };
    if digits.len() == 0 {
        None
    } else {
        digits_value(digits)
    }
}

proof fn lemma_digits_prefix(digits: Seq<char>, n: int)
    requires
        0 <= n <= digits.len(),
    ensures
        digits_value(digits.take(n)) is None ==> digits_value(digits) is None,
        digits_value(digits) matches Some(value) ==> digits_value(digits.take(n))->0 <= value,
    decreases digits.len() - n,
{
    if n < digits.len() {
        lemma_digits_prefix(digits, n + 1);
        assert(digits.take(n + 1).drop_last() =~= digits.take(n));
    } else {
        assert(digits.take(n) =~= digits);
    }
}

/// The number that a text stands for as a whole, if it is at most `max`.
pub(crate) fn parse_decimal(text: &str, max: u64) -> (number: Option<u64>)
    ensures
        match number {
            Some(number) => decimal(text@) == Some(number as nat) && number <= max,
            None => match decimal(text@) {
                Some(number) => number > max,
                None => true,
            },
        },
{
    let digits = match strip_prefix(text, "+") {
        Some(digits) => digits,
        None => text,
    };
    proof {
        reveal_strlit("+");
        assert("+"@.is_prefix_of(text@) == (text@.len() > 0 && text@.first() == '+')) by {
            if text@.len() > 0 && text@.first() == '+' {
                assert(text@.subrange(0, 1) =~= "+"@);
            }
            if "+"@.is_prefix_of(text@) {
                assert(text@.subrange(0, 1)[0] == "+"@[0]);
            }
        }
        assert("+"@.is_prefix_of(text@) ==> text@.skip(1) =~= text@.drop_first());
    }
    if digits.is_empty() {
        return None;
    }
    let mut number: u64 = 0;
    let mut i: usize = 0;
    let len = digits.unicode_len();
    assert(digits@.take(0) =~= Seq::<char>::empty());
    while i < len
        invariant
            i <= len == digits@.len(),
            digits_value(digits@.take(i as int)) == Some(number as nat),
            number <= max,
            decimal(text@) == digits_value(digits@),
        decreases len - i,
    {
        let c = digits.get_char(i);
        proof {
            lemma_digits_prefix(digits@, i + 1);
            assert(digits@.take(i + 1).drop_last() =~= digits@.take(i as int));
            assert(digits@.take(i + 1).last() == c);
        }
        if !('0' <= c && c <= '9') {
            return None;
        }
        let low: u64 = (c as u32 - '0' as u32) as u64;
        if low > max || number > (max - low) / 10 {
            return None;
        }
        number = number * 10 + low;
        i += 1;
    }
    assert(digits@.take(len as int) =~= digits@);
    Some(number)
}

/// The first occurrence of a part is one, and none stands before it; where there is no first,
/// there is none at all.
pub proof fn law_first_at_is_the_first<A>(whole: Seq<A>, part: Seq<A>)
    ensures
        match first_at(whole, part) {
            Some(i) => {
                &&& 0 <= i <= i + part.len() <= whole.len()
                &&& whole.subrange(i, i + part.len()) == part
                &&& forall|j: int|
                    0 <= j < i ==> #[trigger] whole.subrange(j, j + part.len()) != part
            },
            None => forall|j: int|
                0 <= j <= j + part.len() <= whole.len() ==> #[trigger] whole.subrange(
                    j,
                    j + part.len(),
                ) != part,
        },
    decreases whole.len(),
{
    lemma_first_at(whole, part);
    if !part.is_prefix_of(whole) && whole.len() > 0 {
        let rest = whole.drop_first();
        law_first_at_is_the_first(rest, part);
        lemma_first_at(rest, part);
        assert forall|j: int|
            1 <= j <= j + part.len() <= whole.len() implies #[trigger] whole.subrange(
            j,
            j + part.len(),
        ) == rest.subrange(j - 1, j - 1 + part.len()) by {
            assert(whole.subrange(j, j + part.len()) =~= rest.subrange(
                j - 1,
                j - 1 + part.len(),
            ));
        }
        assert(part.len() <= whole.len() ==> whole.subrange(0, part.len() as int) != part);
    }
}

/// A text stands for a number if and only if it is digits, at least one, after a plus sign or
/// none.
pub proof fn law_decimal_is_digits(text: Seq<char>)
    ensures
        ({
            let start = if text.len() > 0 && text[0] == '+' {
                1int
            } else {
                0int
            };
            decimal(text) is Some <==> (text.len() > start && forall|i: int|
                start <= i < text.len() ==> '0' <= #[trigger] text[i] <= '9')
        }),
{
    let start = if text.len() > 0 && text[0] == '+' {
        1int
    } else {
        0int
    };
    let digits = text.skip(start);
    assert(start == 0 ==> digits =~= text);
    assert(start == 1 ==> digits =~= text.drop_first());
    lemma_digits_only(digits);
    assert forall|i: int| start <= i < text.len() implies #[trigger] text[i] == digits[i
        - start] by {}
    assert forall|i: int| 0 <= i < digits.len() implies #[trigger] digits[i] == text[i
        + start] by {}
}

proof fn lemma_digits_only(digits: Seq<char>)
    ensures
        digits_value(digits) is Some <==> forall|i: int|
            0 <= i < digits.len() ==> '0' <= #[trigger] digits[i] <= '9',
    decreases digits.len(),
{
    if digits.len() > 0 {
        let high = digits.drop_last();
        lemma_digits_only(high);
        assert forall|i: int| 0 <= i < high.len() implies #[trigger] high[i] == digits[i] by {}
        assert(digits.last() == digits[digits.len() - 1]);
        if digits_value(digits) is Some {
            assert forall|i: int| 0 <= i < digits.len() implies '0' <= #[trigger] digits[i]
                <= '9' by {
                if i < digits.len() - 1 {
                    assert(high[i] == digits[i]);
                }
            }
        }
    }
}

/// A digit stands for itself, a digit behind a number makes it ten times as much and that digit,
/// and a plus sign before a number changes nothing.
pub proof fn law_decimal_is_positional(text: Seq<char>, c: char)
    requires
        '0' <= c <= '9',
    ensures
        decimal(seq![c]) == Some((c as u32 - '0' as u32) as nat),
        decimal(text) matches Some(high) ==> decimal(text.push(c)) == Some(
            (10 * high + (c as u32 - '0' as u32)) as nat,
        ),
        decimal(text) is Some && text[0] != '+' ==> decimal(seq!['+'] + text) == decimal(text),
{
    reveal_with_fuel(digits_value, 2);
    assert(seq![c].drop_last() =~= Seq::<char>::empty());
    if decimal(text) is Some {
        if text[0] == '+' {
            assert(text.push(c).drop_first() =~= text.drop_first().push(c));
            assert(text.drop_first().push(c).drop_last() =~= text.drop_first());
        } else {
            assert(text.push(c).drop_last() =~= text);
        }
        assert((seq!['+'] + text).drop_first() =~= text);
    }
}

} // verus!
