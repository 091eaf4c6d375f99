//! Text helpers: characters of a string, comparison, and decimal printing.

use vstd::prelude::*;

verus! {

/// `String::push`: appends one character to the end of the string.
pub assume_specification[ String::push ](s: &mut String, c: char)
    ensures
        final(s)@ == old(s)@.push(c),
;

/// The characters of a text, in order.
pub fn chars_of(s: &str) -> (chars: Vec<char>)
    ensures
        chars@ == s@,
{
    let mut chars: Vec<char> = Vec::new();
    for c in it: s.chars()
        invariant
            chars@ == it.seq().take(it.index()),
            it.seq() == s@,
    {
        chars.push(c);
        assert(it.seq().take(it.index() + 1) == it.seq().take(it.index()).push(c));
    }
    chars
}

/// A string made of `chars[from..to]`.
pub fn string_of(chars: &[char], from: usize, to: usize) -> (s: String)
    requires
        from <= to <= chars@.len(),
    ensures
        s@ == chars@.subrange(from as int, to as int),
{
    let mut s = String::new();
    let mut i: usize = from;
    while i < to
        invariant
            from <= i <= to <= chars@.len(),
            s@ == chars@.subrange(from as int, i as int),
        decreases to - i,
    {
        s.push(chars[i]);
        i += 1;
        assert(chars@.subrange(from as int, i as int) == chars@.subrange(from as int, i - 1).push(
            chars@[i - 1],
        ));
    }
    s
}

/// Whether two texts hold the same characters.
pub fn same_text(a: &str, b: &str) -> (same: bool)
    ensures
        same == (a@ == b@),
{
    let a = a.to_owned();
    let b = b.to_owned();
    a == b
}

/// The character of one decimal digit.
pub open spec fn digit_char(d: nat) -> char {
    if d == 0 { '0' } else if d == 1 { '1' } else if d == 2 { '2' } else if d == 3 { '3' }
    else if d == 4 { '4' } else if d == 5 { '5' } else if d == 6 { '6' } else if d == 7 { '7' }
    else if d == 8 { '8' } else { '9' }
}

/// Decimal notation of a natural number, without leading zeros.
pub open spec fn decimal(n: nat) -> Seq<char>
    decreases n,
{
    if n < 10 {
        seq![digit_char(n)]
    } else {
        decimal(n / 10).push(digit_char(n % 10))
    }
}

/// Decimal notation of an integer: a minus sign stands before a negative one.
pub open spec fn signed_decimal(n: int) -> Seq<char> {
    if n < 0 {
        seq!['-'] + decimal((-n) as nat)
    } else {
        decimal(n as nat)
    }
}

fn digit(d: u64) -> (c: char)
    requires
        d < 10,
    ensures
        c == digit_char(d as nat),
{
    if d == 0 { '0' } else if d == 1 { '1' } else if d == 2 { '2' } else if d == 3 { '3' }
    else if d == 4 { '4' } else if d == 5 { '5' } else if d == 6 { '6' } else if d == 7 { '7' }
    else if d == 8 { '8' } else { '9' }
}

/// Appends the decimal notation of `n`.
pub fn push_decimal(s: &mut String, n: u64)
    ensures
        final(s)@ == old(s)@ + decimal(n as nat),
    decreases n,
{
    if n >= 10 {
        push_decimal(s, n / 10);
    }
    s.push(digit(n % 10));
    proof {
        let rest = if n >= 10 { decimal((n / 10) as nat) } else { Seq::<char>::empty() };
        assert(decimal(n as nat) == rest.push(digit_char((n % 10) as nat)));
        assert(old(s)@ + rest.push(digit_char((n % 10) as nat)) == (old(s)@ + rest).push(
            digit_char((n % 10) as nat),
        ));
    }
}

/// Appends the decimal notation of a signed number.
pub fn push_signed(s: &mut String, n: i64)
    ensures
        final(s)@ == old(s)@ + signed_decimal(n as int),
{
    if n < 0 {
        s.push('-');
        let m: i128 = -(n as i128);
        push_decimal(s, m as u64);
        assert(old(s)@.push('-') + decimal(m as nat) == old(s)@ + (seq!['-'] + decimal(m as nat)));
    } else {
        push_decimal(s, n as u64);
    }
}

/// The Unicode White_Space property.
pub open spec fn white_space(c: char) -> bool {
    ||| '\u{9}' <= c <= '\u{d}'
    ||| c == ' '
    ||| c == '\u{85}'
    ||| c == '\u{a0}'
    ||| c == '\u{1680}'
    ||| '\u{2000}' <= c <= '\u{200a}'
    ||| c == '\u{2028}'
    ||| c == '\u{2029}'
    ||| c == '\u{202f}'
    ||| c == '\u{205f}'
    ||| c == '\u{3000}'
}

/// Whether the character is white space.
pub fn is_white_space(c: char) -> (white: bool)
    ensures
        white == white_space(c),
{
    ('\u{9}' <= c && c <= '\u{d}') || c == ' ' || c == '\u{85}' || c == '\u{a0}' || c == '\u{1680}'
        || ('\u{2000}' <= c && c <= '\u{200a}') || c == '\u{2028}' || c == '\u{2029}' || c
        == '\u{202f}' || c == '\u{205f}' || c == '\u{3000}'
}

/// The first place from `i` on that does not hold white space, or the end.
pub open spec fn skip_white(s: Seq<char>, i: int) -> int
    decreases s.len() - i,
{
    if 0 <= i < s.len() && white_space(s[i]) {
        skip_white(s, i + 1)
    } else {
        i
    }
}

/// The place after the last character of `s[lo..hi]` that is not white space, or `lo`.
pub open spec fn trim_back(s: Seq<char>, lo: int, hi: int) -> int
    decreases hi - lo,
{
    if lo < hi && white_space(s[hi - 1]) {
        trim_back(s, lo, hi - 1)
    } else {
        hi
    }
}

/// The text without white space at its two ends.
pub open spec fn trimmed(s: Seq<char>) -> Seq<char> {
    let lo = skip_white(s, 0);
    s.subrange(lo, trim_back(s, lo, s.len() as int))
}

proof fn skip_white_in_range(s: Seq<char>, i: int)
    requires
        0 <= i <= s.len(),
    ensures
        i <= skip_white(s, i) <= s.len(),
    decreases s.len() - i,
{
    if i < s.len() && white_space(s[i]) {
        skip_white_in_range(s, i + 1);
    }
}

/// A trimmed text neither begins nor ends with white space.
pub proof fn trimmed_has_no_outer_white_space(s: Seq<char>)
    ensures
        trimmed(s).len() > 0 ==> !white_space(trimmed(s)[0]) && !white_space(trimmed(s).last()),
{
    let lo = skip_white(s, 0);
    skip_white_in_range(s, 0);
    skip_white_stops(s, 0);
    trim_back_stops(s, lo, s.len() as int);
}

proof fn skip_white_stops(s: Seq<char>, i: int)
    requires
        0 <= i <= s.len(),
    ensures
        skip_white(s, i) < s.len() ==> !white_space(s[skip_white(s, i)]),
    decreases s.len() - i,
{
    if i < s.len() && white_space(s[i]) {
        skip_white_stops(s, i + 1);
    }
}

proof fn trim_back_stops(s: Seq<char>, lo: int, hi: int)
    requires
        0 <= lo <= hi <= s.len(),
    ensures
        lo <= trim_back(s, lo, hi) <= hi,
        lo < trim_back(s, lo, hi) ==> !white_space(s[trim_back(s, lo, hi) - 1]),
    decreases hi - lo,
{
    if lo < hi && white_space(s[hi - 1]) {
        trim_back_stops(s, lo, hi - 1);
    }
}

/// Where the trimmed part of `chars` begins and ends.
pub fn trim_range(chars: &[char]) -> (range: (usize, usize))
    ensures
        range.0 <= range.1 <= chars@.len(),
        chars@.subrange(range.0 as int, range.1 as int) == trimmed(chars@),
{
    let n: usize = chars.len();
    let mut lo: usize = 0;
    while lo < n && is_white_space(chars[lo])
        invariant
            lo <= n == chars@.len(),
            skip_white(chars@, 0) == skip_white(chars@, lo as int),
        decreases n - lo,
    {
        lo += 1;
    }
    let mut hi: usize = n;
    while lo < hi && is_white_space(chars[hi - 1])
        invariant
            lo <= hi <= n == chars@.len(),
            trim_back(chars@, lo as int, n as int) == trim_back(chars@, lo as int, hi as int),
        decreases hi - lo,
    {
        hi -= 1;
    }
    (lo, hi)
}

/// The trimmed part of `chars`.
pub fn trimmed_chars(chars: &[char]) -> (result: Vec<char>)
    ensures
        result@ == trimmed(chars@),
{
    let (lo, hi) = trim_range(chars);
    sub_chars(chars, lo, hi)
}

/// The characters `chars[from..to]`.
pub fn sub_chars(chars: &[char], from: usize, to: usize) -> (result: Vec<char>)
    requires
        from <= to <= chars@.len(),
    ensures
        result@ == chars@.subrange(from as int, to as int),
{
    let mut result: Vec<char> = Vec::new();
    let mut i: usize = from;
    while i < to
        invariant
            from <= i <= to <= chars@.len(),
            result@ == chars@.subrange(from as int, i as int),
        decreases to - i,
    {
        result.push(chars[i]);
        i += 1;
        assert(chars@.subrange(from as int, i as int) =~= chars@.subrange(from as int, i - 1).push(
            chars@[i - 1],
        ));
    }
    result
}

/// The characters as a string.
pub fn to_string(chars: &[char]) -> (s: String)
    ensures
        s@ == chars@,
{
    let s = string_of(chars, 0, chars.len());
    assert(chars@.subrange(0, chars@.len() as int) =~= chars@);
    s
}

/// The parts of a text between the places where it holds `sep`.
pub open spec fn parts(s: Seq<char>, sep: char) -> Seq<Seq<char>>
    decreases s.len(),
{
    if s.len() == 0 {
        seq![Seq::<char>::empty()]
    } else {
        let before = parts(s.drop_last(), sep);
        if s.last() == sep {
            before.push(Seq::empty())
        } else {
            before.update(before.len() - 1, before.last().push(s.last()))
        }
    }
}

/// A text has at least one part.
pub proof fn a_text_has_a_part(s: Seq<char>, sep: char)
    ensures
        parts(s, sep).len() >= 1,
    decreases s.len(),
{
    if s.len() > 0 {
        a_text_has_a_part(s.drop_last(), sep);
    }
}

/// Whether these are the parts.
pub open spec fn are_parts(list: Seq<Vec<char>>, expected: Seq<Seq<char>>) -> bool {
    &&& list.len() == expected.len()
    &&& forall|i: int| 0 <= i < list.len() ==> (#[trigger] list[i])@ == expected[i]
}

/// Whether two lists of parts are the same.
pub(crate) fn same_parts(
    a: &Vec<Vec<char>>,
    b: &Vec<Vec<char>>,
    first: Ghost<Seq<Seq<char>>>,
    second: Ghost<Seq<Seq<char>>>,
) -> (same: bool)
    requires
        are_parts(a@, first@),
        are_parts(b@, second@),
    ensures
        same == (first@ == second@),
{
    if a.len() != b.len() {
        return false;
    }
    let mut i: usize = 0;
    while i < a.len()
        invariant
            i <= a@.len() == b@.len(),
            are_parts(a@, first@),
            are_parts(b@, second@),
            forall|k: int| 0 <= k < i ==> first@[k] == second@[k],
        decreases a@.len() - i,
    {
        assert(a@[i as int]@ == first@[i as int] && b@[i as int]@ == second@[i as int]);
        if !same_chars(a[i].as_slice(), b[i].as_slice()) {
            return false;
        }
        i += 1;
    }
    assert(first@ =~= second@);
    true
}

/// Whether two texts are the same.
pub fn same_chars(a: &[char], b: &[char]) -> (same: bool)
    ensures
        same == (a@ == b@),
{
    if a.len() != b.len() {
        return false;
    }
    let mut i: usize = 0;
    while i < a.len()
        invariant
            i <= a@.len() == b@.len(),
            forall|k: int| 0 <= k < i ==> a@[k] == b@[k],
        decreases a@.len() - i,
    {
        if a[i] != b[i] {
            return false;
        }
        i += 1;
    }
    assert(a@ =~= b@);
    true
}

/// The parts of a text between the places where it holds `sep`.
pub fn split(chars: &[char], sep: char) -> (list: Vec<Vec<char>>)
    ensures
        are_parts(list@, parts(chars@, sep)),
{
    let mut list: Vec<Vec<char>> = Vec::new();
    let mut part: Vec<char> = Vec::new();
    let mut i: usize = 0;
    assert(chars@.take(0) =~= Seq::<char>::empty());
    while i < chars.len()
        invariant
            i <= chars@.len(),
            ({
                let so_far = parts(chars@.take(i as int), sep);
                &&& list@.len() + 1 == so_far.len()
                &&& part@ == so_far.last()
                &&& forall|k: int| 0 <= k < list@.len() ==> (#[trigger] list@[k])@ == so_far[k]
            }),
        decreases chars@.len() - i,
    {
        let c = chars[i];
        let ghost before = parts(chars@.take(i as int), sep);
        proof {
            assert(chars@.take(i + 1).drop_last() =~= chars@.take(i as int));
            assert(chars@.take(i + 1).last() == c);
        }
        if c == sep {
            let ghost done = part@;
            list.push(part);
            part = Vec::new();
            proof {
                let now = parts(chars@.take(i + 1), sep);
                assert(now =~= before.push(Seq::empty()));
                assert(part@ =~= Seq::<char>::empty());
                assert forall|k: int| 0 <= k < list@.len() implies (#[trigger] list@[k])@ == now[k] by {
                    if k == list@.len() - 1 {
                        assert(list@[k]@ == done);
                    }
                }
            }
        } else {
            part.push(c);
        }
        i += 1;
    }
    list.push(part);
    assert(chars@.take(i as int) =~= chars@);
    list
}

/// The first place from `i` on that holds `c`; the length if there is none.
pub open spec fn find_from(s: Seq<char>, c: char, i: int) -> int
    decreases s.len() - i,
{
    if i >= s.len() || s[i] == c {
        if i >= s.len() {
            s.len() as int
        } else {
            i
        }
    } else {
        find_from(s, c, i + 1)
    }
}

/// The first place that holds `c`; the length if there is none.
pub fn find_char(chars: &[char], c: char) -> (at: usize)
    ensures
        at == find_from(chars@, c, 0),
        at <= chars@.len(),
        at < chars@.len() ==> chars@[at as int] == c,
        forall|k: int| 0 <= k < at ==> chars@[k] != c,
{
    let mut i: usize = 0;
    while i < chars.len() && chars[i] != c
        invariant
            i <= chars@.len(),
            find_from(chars@, c, 0) == find_from(chars@, c, i as int),
            forall|k: int| 0 <= k < i ==> chars@[k] != c,
        decreases chars@.len() - i,
    {
        i += 1;
    }
    i
}

/// Whether the first characters from `i` on are those of `word`.
pub open spec fn starts_at(s: Seq<char>, i: int, word: Seq<char>) -> bool {
    0 <= i && i + word.len() <= s.len() && s.subrange(i, i + word.len()) == word
}

/// Whether the characters from `i` on begin with `word`.
pub fn has_word_at(chars: &[char], i: usize, word: &[char]) -> (yes: bool)
    requires
        i <= chars@.len(),
    ensures
        yes == starts_at(chars@, i as int, word@),
{
    let n: usize = word.len();
    let total: usize = chars.len();
    if total - i < n {
        return false;
    }
    let mut k: usize = 0;
    while k < n
        invariant
            k <= n == word@.len(),
            i + n <= total == chars@.len(),
            forall|m: int| 0 <= m < k ==> chars@[i + m] == word@[m],
        decreases n - k,
    {
        if chars[i + k] != word[k] {
            proof {
                let here = chars@.subrange(i as int, i + word@.len());
                assert(here[k as int] != word@[k as int]);
            }
            return false;
        }
        k += 1;
    }
    assert(chars@.subrange(i as int, i + word@.len()) =~= word@);
    true
}

/// The text with every occurrence of `word` replaced, from left to right.
pub open spec fn replaced(s: Seq<char>, i: int, word: Seq<char>, by: Seq<char>) -> Seq<char>
    decreases s.len() - i,
{
    if i >= s.len() || word.len() == 0 {
        Seq::empty()
    } else if starts_at(s, i, word) {
        by + replaced(s, i + word.len(), word, by)
    } else {
        seq![s[i]] + replaced(s, i + 1, word, by)
    }
}

/// The text with every occurrence of `word` replaced, from left to right.
pub fn replace(chars: &[char], word: &[char], by: &[char]) -> (result: Vec<char>)
    requires
        word@.len() > 0,
    ensures
        result@ == replaced(chars@, 0, word@, by@),
{
    let mut result: Vec<char> = Vec::new();
    let mut i: usize = 0;
    assert(result@ + replaced(chars@, 0, word@, by@) =~= replaced(chars@, 0, word@, by@));
    while i < chars.len()
        invariant
            word@.len() > 0,
            i <= chars@.len(),
            result@ + replaced(chars@, i as int, word@, by@) == replaced(chars@, 0, word@, by@),
        decreases chars@.len() - i,
    {
        let ghost before = result@;
        if has_word_at(chars, i, word) {
            let mut k: usize = 0;
            while k < by.len()
                invariant
                    k <= by@.len(),
                    result@ == before + by@.take(k as int),
                decreases by@.len() - k,
            {
                result.push(by[k]);
                assert(by@.take(k + 1) =~= by@.take(k as int).push(by@[k as int]));
                k += 1;
            }
            proof {
                assert(by@.take(k as int) =~= by@);
                let rest = replaced(chars@, i + word@.len(), word@, by@);
                assert(before + (by@ + rest) =~= result@ + rest);
            }
            i += word.len();
        } else {
            result.push(chars[i]);
            proof {
                let rest = replaced(chars@, i + 1, word@, by@);
                assert(before + (seq![chars@[i as int]] + rest) =~= result@ + rest);
            }
            i += 1;
        }
    }
    assert(result@ + Seq::<char>::empty() =~= result@);
    result
}

/// The number that a row of digits stands for; nothing but digits counts.
pub open spec fn number_of(digits: Seq<char>) -> nat
    decreases digits.len(),
{
    if digits.len() == 0 {
        0
    } else {
        number_of(digits.drop_last()) * 10 + (digits.last() as nat - '0' as nat) as nat
    }
}

/// Decimal notation stands for the number: it is made of digits, begins with no zero but for zero itself,
/// and each digit counts ten times the next.
pub proof fn decimal_notation_stands_for_the_number(n: nat)
    ensures
        number_of(decimal(n)) == n,
        decimal(n).len() > 0,
        forall|i: int| 0 <= i < decimal(n).len() ==> '0' <= #[trigger] decimal(n)[i] <= '9',
        n > 0 ==> decimal(n)[0] != '0',
    decreases n,
{
    let digits = decimal(n);
    if n < 10 {
        assert(digits.drop_last() =~= Seq::<char>::empty());
        assert(number_of(digits.drop_last()) == 0);
        assert(digits.last() == digit_char(n));
    } else {
        decimal_notation_stands_for_the_number(n / 10);
        assert(digits.drop_last() =~= decimal(n / 10));
        assert(digits.last() == digit_char(n % 10));
        assert(digits[0] == decimal(n / 10)[0]);
        assert forall|i: int| 0 <= i < digits.len() implies '0' <= #[trigger] digits[i] <= '9' by {
            if i < digits.len() - 1 {
                assert(digits[i] == decimal(n / 10)[i]);
            }
        }
    }
}

/// Numbers are told apart by their notation, negative ones too.
pub proof fn notation_tells_numbers_apart(a: int, b: int)
    requires
        signed_decimal(a) == signed_decimal(b),
    ensures
        a == b,
{
    decimal_notation_stands_for_the_number((if a < 0 { -a } else { a }) as nat);
    decimal_notation_stands_for_the_number((if b < 0 { -b } else { b }) as nat);
    let (x, y) = (signed_decimal(a), signed_decimal(b));
    if a < 0 {
        assert(x[0] == '-');
        assert(x.skip(1) =~= decimal((-a) as nat));
    }
    if b < 0 {
        assert(y[0] == '-');
        assert(y.skip(1) =~= decimal((-b) as nat));
    }
}

proof fn white_up_to(s: Seq<char>, i: int)
    requires
        0 <= i <= s.len(),
    ensures
        i <= skip_white(s, i) <= s.len(),
        forall|k: int| i <= k < skip_white(s, i) ==> white_space(#[trigger] s[k]),
    decreases s.len() - i,
{
    if i < s.len() && white_space(s[i]) {
        white_up_to(s, i + 1);
    }
}

proof fn white_from(s: Seq<char>, lo: int, hi: int)
    requires
        0 <= lo <= hi <= s.len(),
    ensures
        lo <= trim_back(s, lo, hi) <= hi,
        forall|k: int| trim_back(s, lo, hi) <= k < hi ==> white_space(#[trigger] s[k]),
    decreases hi - lo,
{
    if lo < hi && white_space(s[hi - 1]) {
        white_from(s, lo, hi - 1);
    }
}

/// Trimming takes white space from the two ends and nothing else: the text is what is left, with white
/// space before and behind it.
pub proof fn trimming_takes_only_white_space(s: Seq<char>)
    ensures
        exists|lo: int, hi: int|
            0 <= lo <= hi <= s.len() && trimmed(s) == #[trigger] s.subrange(lo, hi) && (forall|k: int|
                0 <= k < lo || hi <= k < s.len() ==> white_space(#[trigger] s[k])) && (lo < hi ==> !white_space(
                s[lo],
            ) && !white_space(s[hi - 1])),
{
    let lo = skip_white(s, 0);
    white_up_to(s, 0);
    let hi = trim_back(s, lo, s.len() as int);
    white_from(s, lo, s.len() as int);
    trimmed_has_no_outer_white_space(s);
    assert(trimmed(s) == s.subrange(lo, hi));
}

/// Texts with a separator between each two of them.
pub open spec fn rejoined(list: Seq<Seq<char>>, sep: char) -> Seq<char>
    decreases list.len(),
{
    if list.len() == 0 {
        Seq::empty()
    } else if list.len() == 1 {
        list[0]
    } else {
        rejoined(list.drop_last(), sep).push(sep) + list.last()
    }
}

/// The parts of a text, with the separator between them, are the text again, and none of them holds the
/// separator.
pub proof fn a_text_is_its_parts(s: Seq<char>, sep: char)
    ensures
        rejoined(parts(s, sep), sep) == s,
        forall|i: int, k: int|
            0 <= i < parts(s, sep).len() && 0 <= k < parts(s, sep)[i].len() ==> (#[trigger] parts(s, sep)[i][k])
                != sep,
    decreases s.len(),
{
    let list = parts(s, sep);
    if s.len() == 0 {
        assert(rejoined(list, sep) =~= s);
    } else {
        let before = parts(s.drop_last(), sep);
        a_text_is_its_parts(s.drop_last(), sep);
        a_text_has_a_part(s.drop_last(), sep);
        if s.last() == sep {
            assert(list == before.push(Seq::empty()));
            assert(list.drop_last() =~= before);
            assert(rejoined(list, sep) =~= s);
            assert forall|i: int, k: int| 0 <= i < list.len() && 0 <= k < list[i].len() implies (#[trigger] list[i][k])
                != sep by {
                assert(i < before.len() && list[i] == before[i]);
                assert(before[i][k] != sep);
            }
        } else {
            let last = before.len() - 1;
            assert(list == before.update(last, before[last].push(s.last())));
            assert(list.drop_last() =~= before.drop_last());
            assert(list.last() == before[last].push(s.last()));
            assert(rejoined(list, sep) =~= rejoined(before, sep).push(s.last()));
            assert(rejoined(list, sep) =~= s);
            assert forall|i: int, k: int| 0 <= i < list.len() && 0 <= k < list[i].len() implies (#[trigger] list[i][k])
                != sep by {
                if i < last {
                    assert(list[i] == before[i]);
                    assert(before[i][k] != sep);
                } else if k < before[last].len() {
                    assert(before[last][k] != sep);
                }
            }
        }
    }
}

/// The place that is found holds the character, and none before it does; at the end there is none.
pub proof fn the_first_place_is_found(s: Seq<char>, c: char, i: int)
    requires
        0 <= i <= s.len(),
    ensures
        ({
            let at = find_from(s, c, i);
            &&& i <= at <= s.len()
            &&& at < s.len() ==> s[at] == c
            &&& forall|k: int| i <= k < at ==> #[trigger] s[k] != c
        }),
    decreases s.len() - i,
{
    if i < s.len() && s[i] != c {
        the_first_place_is_found(s, c, i + 1);
    }
}

/// Replacing touches nothing but the word: what comes before its first occurrence stays, the word gives way,
/// and the rest is dealt with alike. A text without the word stays as it is.
pub proof fn replacing_touches_only_the_word(s: Seq<char>, i: int, at: int, word: Seq<char>, by: Seq<char>)
    requires
        0 <= i <= at <= s.len(),
        word.len() > 0,
        forall|k: int| i <= k < at ==> !#[trigger] starts_at(s, k, word),
    ensures
        starts_at(s, at, word) ==> replaced(s, i, word, by) == s.subrange(i, at) + by + replaced(
            s,
            at + word.len(),
            word,
            by,
        ),
        at == s.len() ==> replaced(s, i, word, by) == s.subrange(i, s.len() as int),
    decreases at - i,
{
    if i < at {
        replacing_touches_only_the_word(s, i + 1, at, word, by);
        assert(!starts_at(s, i, word));
        assert(seq![s[i]] + s.subrange(i + 1, at) =~= s.subrange(i, at));
        if starts_at(s, at, word) {
            assert(replaced(s, i, word, by) =~= s.subrange(i, at) + by + replaced(s, at + word.len(), word, by));
        }
    } else {
        assert(s.subrange(i, at) =~= Seq::<char>::empty());
        if starts_at(s, at, word) {
            assert(replaced(s, i, word, by) =~= s.subrange(i, at) + by + replaced(s, at + word.len(), word, by));
        }
    }
}

proof fn skips_to(s: Seq<char>, i: int, to: int)
    requires
        0 <= i <= to <= s.len(),
        forall|k: int| i <= k < to ==> white_space(#[trigger] s[k]),
        to < s.len() ==> !white_space(s[to]),
    ensures
        skip_white(s, i) == to,
    decreases to - i,
{
    if i < to {
        assert(white_space(s[i]));
        skips_to(s, i + 1, to);
    }
}

proof fn trims_to(s: Seq<char>, lo: int, hi: int, to: int)
    requires
        0 <= lo <= to <= hi <= s.len(),
        forall|k: int| to <= k < hi ==> white_space(#[trigger] s[k]),
        lo < to ==> !white_space(s[to - 1]),
    ensures
        trim_back(s, lo, hi) == to,
    decreases hi - to,
{
    if to < hi {
        assert(white_space(s[hi - 1]));
        trims_to(s, lo, hi - 1, to);
    }
}

/// White space around a text is trimmed away, and the text itself is left.
pub proof fn white_space_around_is_trimmed(before: Seq<char>, text: Seq<char>, behind: Seq<char>)
    requires
        forall|i: int| 0 <= i < before.len() ==> white_space(#[trigger] before[i]),
        forall|i: int| 0 <= i < behind.len() ==> white_space(#[trigger] behind[i]),
        text.len() > 0 ==> !white_space(text[0]) && !white_space(text.last()),
    ensures
        trimmed(before + text + behind) == text,
{
    let s = before + text + behind;
    let n = before.len() as int;
    let m = n + text.len();
    assert forall|k: int| 0 <= k < n implies white_space(#[trigger] s[k]) by {
        assert(s[k] == before[k]);
    }
    assert forall|k: int| m <= k < s.len() implies white_space(#[trigger] s[k]) by {
        assert(s[k] == behind[k - m]);
    }
    if text.len() > 0 {
        assert(s[n] == text[0] && s[m - 1] == text.last());
        skips_to(s, 0, n);
        trims_to(s, n, s.len() as int, m);
        assert(s.subrange(n, m) =~= text);
    } else {
        skips_to(s, 0, s.len() as int);
        assert(s.subrange(s.len() as int, s.len() as int) =~= text);
    }
}

/// The parts of two texts with a separator between them are the parts of the first and those of the second.
pub proof fn parts_of_two_texts(a: Seq<char>, b: Seq<char>, sep: char)
    ensures
        parts(a.push(sep) + b, sep) == parts(a, sep) + parts(b, sep),
    decreases b.len(),
{
    let s = a.push(sep) + b;
    if b.len() == 0 {
        assert(s =~= a.push(sep));
        assert(s.drop_last() =~= a);
        assert(parts(s, sep) =~= parts(a, sep) + parts(b, sep));
    } else {
        let c = b.drop_last();
        parts_of_two_texts(a, c, sep);
        a_text_has_a_part(c, sep);
        assert(s.drop_last() =~= a.push(sep) + c);
        assert(s.last() == b.last());
        let before = parts(a, sep) + parts(c, sep);
        if b.last() == sep {
            assert(parts(s, sep) =~= parts(a, sep) + parts(b, sep));
        } else {
            assert(before.last() == parts(c, sep).last());
            assert(parts(s, sep) =~= parts(a, sep) + parts(b, sep));
        }
    }
}

/// A text without the separator is its only part.
pub proof fn a_text_without_separator_is_one_part(s: Seq<char>, sep: char)
    requires
        forall|i: int| 0 <= i < s.len() ==> #[trigger] s[i] != sep,
    ensures
        parts(s, sep) == seq![s],
    decreases s.len(),
{
    if s.len() > 0 {
        let c = s.drop_last();
        assert forall|i: int| 0 <= i < c.len() implies #[trigger] c[i] != sep by {
            assert(c[i] == s[i]);
        }
        a_text_without_separator_is_one_part(c, sep);
        assert(c.push(s.last()) =~= s);
        assert(parts(s, sep) =~= seq![s]);
    } else {
        assert(s =~= Seq::<char>::empty());
        assert(parts(s, sep) =~= seq![s]);
    }
}

/// White space is what Unicode says: the tabs, line and page breaks of ASCII, its space, the next line, and the
/// spaces and separators beyond.
pub proof fn white_space_is_that_of_unicode(c: char)
    ensures
        c <= '\u{7f}' ==> (white_space(c) <==> c == ' ' || c == '\t' || c == '\n' || c == '\r' || c == '\u{b}' || c
            == '\u{c}'),
        c > '\u{7f}' ==> (white_space(c) <==> {
            let n = c as int;
            n == 0x85 || n == 0xA0 || n == 0x1680 || 0x2000 <= n <= 0x200A || n == 0x2028 || n == 0x2029 || n
                == 0x202F || n == 0x205F || n == 0x3000
        }),
{
}

} // verus!
