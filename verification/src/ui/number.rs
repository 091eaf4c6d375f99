//! Recognising decimal numbers and lists of them.

use crate::text::{trim_range, trimmed};
use vstd::prelude::*;
use vstd::slice::slice_subrange;

verus! {

/// A decimal digit.
pub open spec fn is_digit(c: char) -> bool {
    '0' <= c <= '9'
}

/// A plus or minus sign.
pub open spec fn is_sign(c: char) -> bool {
    c == '+' || c == '-'
}

/// The first place from `i` on that does not hold a digit, or the end.
pub open spec fn digits_end(s: Seq<char>, i: int) -> int
    decreases s.len() - i,
{
    if 0 <= i < s.len() && is_digit(s[i]) {
        digits_end(s, i + 1)
    } else {
        i
    }
}

/// The place after an optional sign at `i`.
pub open spec fn after_sign(s: Seq<char>, i: int) -> int {
    if 0 <= i < s.len() && is_sign(s[i]) {
        i + 1
    } else {
        i
    }
}

/// Whether `s[i..]` is empty or an exponent: `e`, an optional sign, digits.
pub open spec fn ends_in_exponent(s: Seq<char>, i: int) -> bool {
    i == s.len() || {
        &&& s[i] == 'e' || s[i] == 'E'
        &&& after_sign(s, i + 1) < s.len()
        &&& digits_end(s, after_sign(s, i + 1)) == s.len()
    }
}

/// Whether `s[i..]` is digits with an optional point in them, at least one digit, and an optional
/// exponent.
pub open spec fn is_decimal(s: Seq<char>, i: int) -> bool {
    let whole = digits_end(s, i);
    if 0 <= whole < s.len() && s[whole] == '.' {
        let fraction = digits_end(s, whole + 1);
        (whole > i || fraction > whole + 1) && ends_in_exponent(s, fraction)
    } else {
        whole > i && ends_in_exponent(s, whole)
    }
}

/// Whether `c` is the letter `lower`, in either case.
pub open spec fn is_letter(c: char, lower: char, upper: char) -> bool {
    c == lower || c == upper
}

/// Whether `s[i..]` is `inf`, `infinity` or `nan`, in any case.
pub open spec fn is_special(s: Seq<char>, i: int) -> bool {
    let n = s.len() - i;
    ||| {
        &&& n == 3
        &&& is_letter(s[i], 'n', 'N') && is_letter(s[i + 1], 'a', 'A') && is_letter(
            s[i + 2],
            'n',
            'N',
        )
    }
    ||| {
        &&& n == 3 || n == 8
        &&& is_letter(s[i], 'i', 'I') && is_letter(s[i + 1], 'n', 'N') && is_letter(
            s[i + 2],
            'f',
            'F',
        )
        &&& n == 8 ==> is_letter(s[i + 3], 'i', 'I') && is_letter(s[i + 4], 'n', 'N')
            && is_letter(s[i + 5], 'i', 'I') && is_letter(s[i + 6], 't', 'T') && is_letter(
            s[i + 7],
            'y',
            'Y',
        )
    }
}

/// Whether the text is a number: an optional sign, then `inf`, `infinity`, `nan` or a decimal.
pub open spec fn is_number(s: Seq<char>) -> bool {
    let i = after_sign(s, 0);
    is_special(s, i) || is_decimal(s, i)
}

/// How many numbers a comma-separated list holds: none is the answer if a part is something else. White
/// space around a part does not count, and neither does a blank part.
pub open spec fn number_list(s: Seq<char>) -> Option<nat>
    decreases s.len(),
{
    let comma = comma_at(s, 0);
    let part = trimmed(s.take(comma));
    let rest = if 0 <= comma < s.len() {
        number_list(s.skip(comma + 1))
    } else {
        Some(0)
    };
    if part.len() == 0 {
        rest
    } else if is_number(part) {
        match rest {
            Some(n) => Some(n + 1),
            None => None,
        }
    } else {
        None
    }
}

/// The first comma from `i` on, or the end.
pub open spec fn comma_at(s: Seq<char>, i: int) -> int
    decreases s.len() - i,
{
    if 0 <= i < s.len() && s[i] != ',' {
        comma_at(s, i + 1)
    } else {
        i
    }
}

fn digits_end_at(s: &[char], from: usize) -> (end: usize)
    requires
        from <= s@.len(),
    ensures
        end == digits_end(s@, from as int),
        from <= end <= s@.len(),
{
    let mut i: usize = from;
    while i < s.len() && '0' <= s[i] && s[i] <= '9'
        invariant
            from <= i <= s@.len(),
            digits_end(s@, from as int) == digits_end(s@, i as int),
        decreases s@.len() - i,
    {
        i += 1;
    }
    i
}

fn sign_end_at(s: &[char], from: usize) -> (end: usize)
    requires
        from <= s@.len(),
    ensures
        end == after_sign(s@, from as int),
        from <= end <= s@.len(),
{
    if from < s.len() && (s[from] == '+' || s[from] == '-') {
        from + 1
    } else {
        from
    }
}

fn exponent_at(s: &[char], i: usize) -> (ok: bool)
    requires
        i <= s@.len(),
    ensures
        ok == ends_in_exponent(s@, i as int),
{
    if i == s.len() {
        return true;
    }
    if s[i] != 'e' && s[i] != 'E' {
        return false;
    }
    let from: usize = sign_end_at(s, i + 1);
    from < s.len() && digits_end_at(s, from) == s.len()
}

fn decimal_at(s: &[char], i: usize) -> (ok: bool)
    requires
        i <= s@.len(),
    ensures
        ok == is_decimal(s@, i as int),
{
    let whole: usize = digits_end_at(s, i);
    if whole < s.len() && s[whole] == '.' {
        let fraction: usize = digits_end_at(s, whole + 1);
        (whole > i || fraction > whole + 1) && exponent_at(s, fraction)
    } else {
        whole > i && exponent_at(s, whole)
    }
}

fn letter(c: char, lower: char, upper: char) -> (ok: bool)
    ensures
        ok == is_letter(c, lower, upper),
{
    c == lower || c == upper
}

fn special_at(s: &[char], i: usize) -> (ok: bool)
    requires
        i <= s@.len(),
    ensures
        ok == is_special(s@, i as int),
{
    let n: usize = s.len() - i;
    if n == 3 {
        (letter(s[i], 'n', 'N') && letter(s[i + 1], 'a', 'A') && letter(s[i + 2], 'n', 'N')) || (
        letter(s[i], 'i', 'I') && letter(s[i + 1], 'n', 'N') && letter(s[i + 2], 'f', 'F'))
    } else if n == 8 {
        letter(s[i], 'i', 'I') && letter(s[i + 1], 'n', 'N') && letter(s[i + 2], 'f', 'F')
            && letter(s[i + 3], 'i', 'I') && letter(s[i + 4], 'n', 'N') && letter(s[i + 5], 'i', 'I')
            && letter(s[i + 6], 't', 'T') && letter(s[i + 7], 'y', 'Y')
    } else {
        false
    }
}

/// Whether the text is a number.
pub fn parses_as_number(s: &[char]) -> (ok: bool)
    ensures
        ok == is_number(s@),
{
    let i: usize = sign_end_at(s, 0);
    special_at(s, i) || decimal_at(s, i)
}

/// How many numbers `found` more are, after what the rest of a list holds.
spec fn and_more(found: nat, rest: Option<nat>) -> Option<nat> {
    match rest {
        Some(n) => Some(found + n),
        None => None,
    }
}

/// How many numbers a comma-separated list holds; none if a part is something else.
pub fn count_numbers(s: &[char]) -> (n: Option<usize>)
    requires
        s@.len() < usize::MAX,
    ensures
        n is Some == number_list(s@) is Some,
        n matches Some(n) ==> number_list(s@) == Some(n as nat),
{
    let len: usize = s.len();
    let mut count: usize = 0;
    let mut from: usize = 0;
    assert(s@.skip(0) =~= s@);
    assert(number_list(s@) == and_more(0, number_list(s@)));
    loop
        invariant_except_break
            count <= from,
            number_list(s@) == and_more(count as nat, number_list(s@.skip(from as int))),
        invariant
            len == s@.len(),
            len < usize::MAX,
            from <= len,
        ensures
            number_list(s@) == Some(count as nat),
        decreases len - from,
    {
        let ghost rest = s@.skip(from as int);
        let mut end: usize = from;
        while end < len && s[end] != ','
            invariant
                len == s@.len(),
                from <= end <= len,
                rest == s@.skip(from as int),
                comma_at(rest, 0) == comma_at(rest, end - from),
            decreases len - end,
        {
            end += 1;
        }
        let part = slice_subrange(s, from, end);
        assert(part@ =~= rest.take(comma_at(rest, 0)));
        let range = trim_range(part);
        let core = slice_subrange(part, range.0, range.1);
        if core.len() > 0 {
            if !parses_as_number(core) {
                return None;
            }
            count += 1;
        }
        if end == len {
            break;
        }
        assert(rest.skip(comma_at(rest, 0) + 1) =~= s@.skip(end + 1));
        from = end + 1;
    }
    Some(count)
}

/// Whether a text is digits alone.
pub open spec fn all_digits(s: Seq<char>) -> bool {
    forall|i: int| 0 <= i < s.len() ==> is_digit(#[trigger] s[i])
}

proof fn digits_are_read(s: Seq<char>, i: int, to: int)
    requires
        0 <= i <= to <= s.len(),
        forall|k: int| i <= k < to ==> is_digit(#[trigger] s[k]),
        to < s.len() ==> !is_digit(s[to]),
    ensures
        digits_end(s, i) == to,
    decreases to - i,
{
    if i < to {
        assert(is_digit(s[i]));
        digits_are_read(s, i + 1, to);
    }
}

/// Whether a text is nothing or one sign.
pub open spec fn maybe_sign(s: Seq<char>) -> bool {
    s.len() == 0 || (s.len() == 1 && is_sign(s[0]))
}

/// A sign or none, digits, and optionally a point with more digits, of which there is at least one before or
/// behind the point, and optionally an exponent of an `e` or `E`, a sign or none, and digits: all that is a
/// number.
pub proof fn a_decimal_is_a_number(
    sign: Seq<char>,
    whole: Seq<char>,
    point: bool,
    fraction: Seq<char>,
    exponent: Option<(char, Seq<char>, Seq<char>)>,
)
    requires
        maybe_sign(sign),
        all_digits(whole),
        all_digits(fraction),
        whole.len() + fraction.len() > 0,
        !point ==> fraction.len() == 0,
        exponent matches Some((e, direction, power)) ==> (e == 'e' || e == 'E') && maybe_sign(direction)
            && power.len() > 0 && all_digits(power),
    ensures
        is_number(
            sign + whole + (if point {
                seq!['.']
            } else {
                Seq::empty()
            }) + fraction + (match exponent {
                Some((e, direction, power)) => seq![e] + direction + power,
                None => Seq::empty(),
            }),
        ),
{
    let dot: Seq<char> = if point {
        seq!['.']
    } else {
        Seq::empty()
    };
    let tail: Seq<char> = match exponent {
        Some((e, direction, power)) => seq![e] + direction + power,
        None => Seq::empty(),
    };
    let s = sign + whole + dot + fraction + tail;
    let i = sign.len() as int;
    let w = i + whole.len();
    let f = w + dot.len() + fraction.len();
    if i > 0 {
        assert(s[0] == sign[0]);
    } else if whole.len() > 0 {
        assert(s[0] == whole[0]);
        assert(is_digit(whole[0]));
    } else {
        assert(s[0] == '.');
    }
    assert(after_sign(s, 0) == i);
    assert forall|k: int| i <= k < w implies is_digit(#[trigger] s[k]) by {
        assert(s[k] == whole[k - i]);
    }
    if tail.len() > 0 {
        assert(s[f] == tail[0]);
    }
    if point {
        assert(s[w] == '.');
        digits_are_read(s, i, w);
        assert forall|k: int| w + 1 <= k < f implies is_digit(#[trigger] s[k]) by {
            assert(s[k] == fraction[k - w - 1]);
        }
        digits_are_read(s, w + 1, f);
    } else {
        digits_are_read(s, i, w);
    }
    if let Some((e, direction, power)) = exponent {
        let p = f + 1 + direction.len();
        if direction.len() > 0 {
            assert(s[f + 1] == direction[0]);
        } else {
            assert(s[f + 1] == power[0]);
            assert(is_digit(power[0]));
        }
        assert(after_sign(s, f + 1) == p);
        assert forall|k: int| p <= k < s.len() implies is_digit(#[trigger] s[k]) by {
            assert(s[k] == power[k - p]);
        }
        digits_are_read(s, p, s.len() as int);
        assert(p < s.len());
    }
    assert(ends_in_exponent(s, f));
}

/// Numbers are made of few characters: a text with any other is no number.
pub proof fn a_number_is_made_of_few_characters(s: Seq<char>, i: int)
    requires
        is_number(s),
        0 <= i < s.len(),
    ensures
        s.len() > 0,
        s[i] != ',' && s[i] != ' ' && s[i] != '%' && s[i] != '#' && s[i] != '(' && s[i] != ')',
{
    let at = after_sign(s, 0);
    if !is_special(s, at) {
        let whole = digits_end(s, at);
        digits_up_to(s, at);
        if 0 <= whole < s.len() && s[whole] == '.' {
            digits_up_to(s, whole + 1);
            if digits_end(s, whole + 1) <= i {
                exponent_characters(s, digits_end(s, whole + 1), i);
            }
        } else {
            if whole <= i {
                exponent_characters(s, whole, i);
            }
        }
    }
}

proof fn digits_up_to(s: Seq<char>, i: int)
    requires
        0 <= i <= s.len(),
    ensures
        i <= digits_end(s, i) <= s.len(),
        forall|k: int| i <= k < digits_end(s, i) ==> is_digit(#[trigger] s[k]),
    decreases s.len() - i,
{
    if i < s.len() && is_digit(s[i]) {
        digits_up_to(s, i + 1);
    }
}

proof fn exponent_characters(s: Seq<char>, from: int, k: int)
    requires
        0 <= from <= s.len(),
        ends_in_exponent(s, from),
        from <= k < s.len(),
    ensures
        is_digit(s[k]) || is_sign(s[k]) || s[k] == 'e' || s[k] == 'E',
{
    digits_up_to(s, after_sign(s, from + 1));
}

/// Texts with a comma between each two of them.
pub open spec fn listed(list: Seq<Seq<char>>) -> Seq<char>
    decreases list.len(),
{
    if list.len() == 0 {
        Seq::empty()
    } else if list.len() == 1 {
        list[0]
    } else {
        list[0] + (seq![','] + listed(list.drop_first()))
    }
}

/// How many of a list of texts are not blank.
pub open spec fn not_blank(list: Seq<Seq<char>>) -> nat
    decreases list.len(),
{
    if list.len() == 0 {
        0
    } else {
        not_blank(list.drop_first()) + (if trimmed(list[0]).len() > 0 {
            1nat
        } else {
            0
        })
    }
}

proof fn comma_is_found(s: Seq<char>, i: int, at: int)
    requires
        0 <= i <= at <= s.len(),
        forall|k: int| i <= k < at ==> #[trigger] s[k] != ',',
        at < s.len() ==> s[at] == ',',
    ensures
        comma_at(s, i) == at,
    decreases at - i,
{
    if i < at {
        assert(s[i] != ',');
        comma_is_found(s, i + 1, at);
    }
}

/// A list of texts with commas between them counts those that are not blank if all of these are numbers, with
/// white space around them or not, and is none otherwise.
pub proof fn a_list_counts_its_numbers(list: Seq<Seq<char>>)
    requires
        list.len() > 0,
        forall|i: int, k: int| 0 <= i < list.len() && 0 <= k < list[i].len() ==> (#[trigger] list[i][k]) != ',',
    ensures
        number_list(listed(list)) == (if forall|i: int|
            0 <= i < list.len() ==> trimmed(#[trigger] list[i]).len() == 0 || is_number(trimmed(list[i])) {
            Some(not_blank(list))
        } else {
            None
        }),
    decreases list.len(),
{
    let s = listed(list);
    let first = list[0];
    let good = |t: Seq<char>| trimmed(t).len() == 0 || is_number(trimmed(t));
    let rest = list.drop_first();
    let n = first.len() as int;
    assert forall|k: int| 0 <= k < n implies #[trigger] s[k] != ',' by {
        assert(s[k] == list[0][k]);
    }
    if list.len() == 1 {
        comma_is_found(s, 0, n);
        assert(s.take(n) =~= first);
        assert(not_blank(rest) == 0);
        assert(good(first) ==> forall|i: int| 0 <= i < list.len() ==> good(#[trigger] list[i]));
        if !good(first) {
            assert(!good(list[0]));
        }
    } else {
        assert(s[n] == ',');
        comma_is_found(s, 0, n);
        assert(s.take(n) =~= first);
        assert(s.skip(n + 1) =~= listed(rest));
        assert forall|i: int, k: int| 0 <= i < rest.len() && 0 <= k < rest[i].len() implies (#[trigger] rest[i][k])
            != ',' by {
            assert(rest[i] == list[i + 1]);
            assert(list[i + 1][k] != ',');
        }
        a_list_counts_its_numbers(rest);
        if forall|i: int| 0 <= i < list.len() ==> good(#[trigger] list[i]) {
            assert forall|i: int| 0 <= i < rest.len() implies good(#[trigger] rest[i]) by {
                assert(rest[i] == list[i + 1]);
                assert(good(list[i + 1]));
            }
            assert(good(list[0]));
        } else {
            let i = choose|i: int| 0 <= i < list.len() && !good(#[trigger] list[i]);
            if i > 0 {
                assert(rest[i - 1] == list[i]);
                assert(!good(rest[i - 1]));
            }
        }
    }
}

/// Whether two letters are the same, whatever their case.
pub open spec fn same_letter(a: char, b: char) -> bool {
    a == b || ('a' <= a <= 'z' && b as int == a as int - 32) || ('a' <= b <= 'z' && a as int == b as int - 32)
}

/// Whether two words have the same letters, whatever their case.
pub open spec fn same_word(a: Seq<char>, b: Seq<char>) -> bool {
    a.len() == b.len() && forall|i: int| 0 <= i < a.len() ==> same_letter(#[trigger] a[i], b[i])
}

/// `inf`, `infinity` and `nan` are numbers too, with a sign or without and in any case.
pub proof fn words_for_numbers_are_numbers(sign: Seq<char>, word: Seq<char>)
    requires
        maybe_sign(sign),
        same_word(word, "inf"@) || same_word(word, "infinity"@) || same_word(word, "nan"@),
    ensures
        is_number(sign + word),
{
    reveal_strlit("inf");
    reveal_strlit("infinity");
    reveal_strlit("nan");
    let s = sign + word;
    let i = sign.len() as int;
    assert(forall|k: int| 0 <= k < word.len() ==> s[i + k] == #[trigger] word[k]);
    let _ = (word[0], word[1], word[2]);
    if i > 0 {
        assert(s[0] == sign[0]);
    } else {
        assert(s[0] == word[0]);
        assert(same_letter(word[0], 'i') || same_letter(word[0], 'n'));
    }
    assert(after_sign(s, 0) == i);
    if word.len() == 8 {
        let _ = (word[3], word[4], word[5], word[6], word[7]);
    }
    assert(is_special(s, i));
}

} // verus!
