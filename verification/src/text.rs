//! Text as sequences of characters: decimal numbers, white space, and the
//! small vocabulary of string building that the documents of this crate
//! need.

use vstd::prelude::*;
use vstd::string::StringExecFns;

verus! {

/// `String::push` appends one character.
pub assume_specification[ String::push ](s: &mut String, c: char)
    ensures
        final(s)@ == old(s)@.push(c),
;

/// The character that stands for the digit `d`.
pub open spec fn digit_char(d: int) -> char {
    if d == 0 {
        '0'
    } else if d == 1 {
        '1'
    } else if d == 2 {
        '2'
    } else if d == 3 {
        '3'
    } else if d == 4 {
        '4'
    } else if d == 5 {
        '5'
    } else if d == 6 {
        '6'
    } else if d == 7 {
        '7'
    } else if d == 8 {
        '8'
    } else {
        '9'
    }
}

/// The decimal notation of `n`, without leading zeros.
pub open spec fn decimal(n: nat) -> Seq<char>
    decreases n,
{
    if n < 10 {
        seq![digit_char(n as int)]
    } else {
        decimal(n / 10).push(digit_char((n % 10) as int))
    }
}

/// The decimal notation of `n`, filled with zeros on the left to three
/// digits.
pub open spec fn decimal_padded3(n: nat) -> Seq<char> {
    if n < 10 {
        seq!['0', '0'] + decimal(n)
    } else if n < 100 {
        seq!['0'] + decimal(n)
    } else {
        decimal(n)
    }
}

/// Computes [`digit_char`].
pub fn digit_to_char(d: u8) -> (c: char)
    requires
        d < 10,
    ensures
        c == digit_char(d as int),
{
    if d == 0 {
        '0'
    } else if d == 1 {
        '1'
    } else if d == 2 {
        '2'
    } else if d == 3 {
        '3'
    } else if d == 4 {
        '4'
    } else if d == 5 {
        '5'
    } else if d == 6 {
        '6'
    } else if d == 7 {
        '7'
    } else if d == 8 {
        '8'
    } else {
        '9'
    }
}

/// The decimal digits of `n`, most significant first.
pub fn decimal_digits(n: u64) -> (digits: Vec<char>)
    ensures
        digits@ == decimal(n as nat),
    decreases n,
{
    if n < 10 {
        let mut digits: Vec<char> = Vec::new();
        digits.push(digit_to_char(n as u8));
        assert(digits@ =~= decimal(n as nat));
        digits
    } else {
        let mut digits = decimal_digits(n / 10);
        digits.push(digit_to_char((n % 10) as u8));
        digits
    }
}

/// Appends the characters of `chars` to `s`.
pub fn push_chars(s: &mut String, chars: &Vec<char>)
    ensures
        final(s)@ == old(s)@ + chars@,
{
    let mut i: usize = 0;
    while i < chars.len()
        invariant
            i <= chars@.len(),
            s@ == old(s)@ + chars@.take(i as int),
        decreases chars@.len() - i,
    {
        s.push(chars[i]);
        i += 1;
        assert(chars@.take(i as int) =~= chars@.take(i - 1).push(chars@[i - 1]));
        assert(s@ =~= old(s)@ + chars@.take(i as int));
    }
    assert(chars@.take(chars@.len() as int) =~= chars@);
}

/// Appends the decimal notation of `n` to `s`.
pub fn push_decimal(s: &mut String, n: u64)
    ensures
        final(s)@ == old(s)@ + decimal(n as nat),
{
    let digits = decimal_digits(n);
    push_chars(s, &digits);
}

/// Appends the decimal notation of `n`, zero-filled to three digits.
pub fn push_decimal_padded3(s: &mut String, n: u64)
    ensures
        final(s)@ == old(s)@ + decimal_padded3(n as nat),
{
    if n < 10 {
        s.push('0');
        s.push('0');
        assert(s@ =~= old(s)@ + seq!['0', '0']);
    } else if n < 100 {
        s.push('0');
        assert(s@ =~= old(s)@ + seq!['0']);
    }
    let ghost before = s@;
    push_decimal(s, n);
    assert(s@ =~= old(s)@ + decimal_padded3(n as nat));
}

/// Appends `other` to `s`.
pub fn push_str(s: &mut String, other: &str)
    ensures
        final(s)@ == old(s)@ + other@,
{
    s.append(other);
}

/// The characters of a string.
pub fn to_chars(s: &str) -> (v: Vec<char>)
    ensures
        v@ == s@,
{
    let mut v: Vec<char> = Vec::new();
    for c in it: s.chars()
        invariant
            v@ == it.seq().take(it.index() as int),
    {
        v.push(c);
    }
    v
}

/// Whether a character is white space: the characters with the Unicode
/// property `White_Space`.
pub open spec fn is_space(c: char) -> bool {
    ||| ('\u{9}' <= c && c <= '\u{D}')
    ||| c == ' '
    ||| c == '\u{85}'
    ||| c == '\u{A0}'
    ||| c == '\u{1680}'
    ||| ('\u{2000}' <= c && c <= '\u{200A}')
    ||| c == '\u{2028}'
    ||| c == '\u{2029}'
    ||| c == '\u{202F}'
    ||| c == '\u{205F}'
    ||| c == '\u{3000}'
}

/// Tests [`is_space`].
pub fn is_whitespace(c: char) -> (r: bool)
    ensures
        r == is_space(c),
{
    ('\u{9}' <= c && c <= '\u{D}') || c == ' ' || c == '\u{85}' || c == '\u{A0}' || c
        == '\u{1680}' || ('\u{2000}' <= c && c <= '\u{200A}') || c == '\u{2028}' || c
        == '\u{2029}' || c == '\u{202F}' || c == '\u{205F}' || c == '\u{3000}'
}

/// The index of the first `c` at or after `from`, or the length where
/// there is none.
pub open spec fn first_index(s: Seq<char>, c: char, from: int) -> int
    decreases s.len() - from,
{
    if from >= s.len() {
        s.len() as int
    } else if s[from] == c {
        from
    } else {
        first_index(s, c, from + 1)
    }
}

/// The index of the first character at or after `from` that is not white
/// space, or the length.
pub open spec fn leading(s: Seq<char>, from: int) -> int
    decreases s.len() - from,
{
    if from >= s.len() {
        s.len() as int
    } else if is_space(s[from]) {
        leading(s, from + 1)
    } else {
        from
    }
}

/// The index of the first white space at or after `from`, or the length.
pub open spec fn word_end(s: Seq<char>, from: int) -> int
    decreases s.len() - from,
{
    if from >= s.len() {
        s.len() as int
    } else if is_space(s[from]) {
        from
    } else {
        word_end(s, from + 1)
    }
}

/// The end of `s[floor..to]` without the white space at its end.
pub open spec fn trailing(s: Seq<char>, to: int, floor: int) -> int
    decreases to,
{
    if to <= floor || to <= 0 {
        floor
    } else if is_space(s[to - 1]) {
        trailing(s, to - 1, floor)
    } else {
        to
    }
}

/// A sequence without the white space at both of its ends.
pub open spec fn trimmed(s: Seq<char>) -> Seq<char> {
    s.subrange(leading(s, 0), trailing(s, s.len() as int, leading(s, 0)))
}

/// The positions that scanning gives lie inside the sequence.
pub proof fn lemma_scan_bounds(s: Seq<char>, c: char, from: int)
    requires
        0 <= from <= s.len(),
    ensures
        from <= first_index(s, c, from) <= s.len(),
        from <= leading(s, from) <= s.len(),
        from <= word_end(s, from) <= s.len(),
        first_index(s, c, from) < s.len() ==> s[first_index(s, c, from)] == c,
        leading(s, from) < s.len() ==> !is_space(s[leading(s, from)]),
        word_end(s, from) < s.len() ==> is_space(s[word_end(s, from)]),
    decreases s.len() - from,
{
    if from < s.len() {
        lemma_scan_bounds(s, c, from + 1);
    }
}

/// The end of a trimmed range lies between its floor and its end.
pub proof fn lemma_trailing_bounds(s: Seq<char>, to: int, floor: int)
    requires
        0 <= floor <= to <= s.len(),
    ensures
        floor <= trailing(s, to, floor) <= to,
    decreases to,
{
    if to > floor && to > 0 && is_space(s[to - 1]) {
        lemma_trailing_bounds(s, to - 1, floor);
    }
}

/// Finds the first `c` at or after `from`.
pub fn find_char(s: &[char], c: char, from: usize) -> (r: usize)
    requires
        from <= s@.len(),
    ensures
        r == first_index(s@, c, from as int),
        from <= r <= s@.len(),
        r < s@.len() ==> s@[r as int] == c,
{
    let mut i = from;
    while i < s.len() && s[i] != c
        invariant
            from <= i <= s@.len(),
            first_index(s@, c, i as int) == first_index(s@, c, from as int),
        decreases s@.len() - i,
    {
        i += 1;
    }
    i
}

/// Finds the first character at or after `from` that is not white space.
pub fn skip_spaces(s: &[char], from: usize) -> (r: usize)
    requires
        from <= s@.len(),
    ensures
        r == leading(s@, from as int),
        from <= r <= s@.len(),
{
    let mut i = from;
    while i < s.len() && is_whitespace(s[i])
        invariant
            from <= i <= s@.len(),
            leading(s@, i as int) == leading(s@, from as int),
        decreases s@.len() - i,
    {
        i += 1;
    }
    i
}

/// Finds the first white space at or after `from`.
pub fn skip_word(s: &[char], from: usize) -> (r: usize)
    requires
        from <= s@.len(),
    ensures
        r == word_end(s@, from as int),
        from <= r <= s@.len(),
{
    let mut i = from;
    while i < s.len() && !is_whitespace(s[i])
        invariant
            from <= i <= s@.len(),
            word_end(s@, i as int) == word_end(s@, from as int),
        decreases s@.len() - i,
    {
        i += 1;
    }
    i
}

/// Removes the white space at both ends.
pub fn trim(s: &[char]) -> (r: &[char])
    ensures
        r@ == trimmed(s@),
{
    let start = skip_spaces(s, 0);
    let mut end = s.len();
    while end > start && is_whitespace(s[end - 1])
        invariant
            start <= end <= s@.len(),
            trailing(s@, end as int, start as int) == trailing(
                s@,
                s@.len() as int,
                start as int,
            ),
        decreases end,
    {
        end -= 1;
    }
    vstd::slice::slice_subrange(s, start, end)
}

/// A range of positions.
#[derive(Clone, Copy, Debug)]
pub struct Span {
    pub start: usize,
    pub end: usize,
}

/// The part of a sequence that a span covers.
pub open spec fn span_of(s: Seq<char>, span: Span) -> Seq<char> {
    s.subrange(span.start as int, span.end as int)
}

/// Whether every span of a list lies inside a sequence of length `len`.
pub open spec fn spans_inside(spans: Seq<Span>, len: nat) -> bool {
    forall|k: int| 0 <= k < spans.len() ==> (#[trigger] spans[k]).start <= spans[k].end <= len
}

/// The parts of a sequence that a list of spans covers.
pub open spec fn parts_of(s: Seq<char>, spans: Seq<Span>) -> Seq<Seq<char>> {
    Seq::new(spans.len(), |k: int| span_of(s, spans[k]))
}

/// The pieces between the occurrences of `sep` from `from` on. There is
/// always at least one piece.
pub open spec fn split_from(s: Seq<char>, sep: char, from: int) -> Seq<Seq<char>>
    decreases s.len() - from,
{
    if from < 0 || first_index(s, sep, from) >= s.len() {
        seq![s.subrange(from, s.len() as int)]
    } else {
        proof {
            lemma_scan_bounds(s, sep, from);
        }
        seq![s.subrange(from, first_index(s, sep, from))] + split_from(
            s,
            sep,
            first_index(s, sep, from) + 1,
        )
    }
}

/// The pieces between the occurrences of `sep`.
pub open spec fn split(s: Seq<char>, sep: char) -> Seq<Seq<char>> {
    split_from(s, sep, 0)
}

/// The lines from `from` on: the pieces that line feeds end. The end of
/// the text ends the last line; a text that ends with a line feed has no
/// empty line behind it.
pub open spec fn lines_from(s: Seq<char>, from: int) -> Seq<Seq<char>>
    decreases s.len() - from,
{
    if from < 0 || from >= s.len() {
        Seq::empty()
    } else if first_index(s, '\n', from) >= s.len() {
        seq![s.subrange(from, s.len() as int)]
    } else {
        proof {
            lemma_scan_bounds(s, '\n', from);
        }
        seq![s.subrange(from, first_index(s, '\n', from))] + lines_from(
            s,
            first_index(s, '\n', from) + 1,
        )
    }
}

/// The lines of a text. A carriage return before a line feed stays part
/// of its line.
pub open spec fn lines(s: Seq<char>) -> Seq<Seq<char>> {
    lines_from(s, 0)
}

/// The words from `from` on: the longest runs without white space.
pub open spec fn words_from(s: Seq<char>, from: int) -> Seq<Seq<char>>
    decreases s.len() - from,
{
    if from < 0 || leading(s, from) >= s.len() {
        Seq::empty()
    } else {
        proof {
            lemma_scan_bounds(s, ' ', from);
            lemma_scan_bounds(s, ' ', leading(s, from) + 1);
        }
        seq![s.subrange(leading(s, from), word_end(s, leading(s, from)))] + words_from(
            s,
            word_end(s, leading(s, from)),
        )
    }
}

/// The words of a text.
pub open spec fn words(s: Seq<char>) -> Seq<Seq<char>> {
    words_from(s, 0)
}

/// Splits at every occurrence of `sep`.
pub fn split_spans(s: &[char], sep: char) -> (spans: Vec<Span>)
    ensures
        spans_inside(spans@, s@.len()),
        parts_of(s@, spans@) == split(s@, sep),
        spans@.len() >= 1,
{
    let mut spans: Vec<Span> = Vec::new();
    let mut from: usize = 0;
    assert(parts_of(s@, spans@) =~= Seq::empty());
    loop
        invariant
            from <= s@.len(),
            spans_inside(spans@, s@.len()),
            split(s@, sep) == parts_of(s@, spans@) + split_from(s@, sep, from as int),
        decreases s@.len() - from,
    {
        let at = find_char(s, sep, from);
        let ghost before = parts_of(s@, spans@);
        spans.push(Span { start: from, end: at });
        assert(parts_of(s@, spans@) =~= before.push(s@.subrange(from as int, at as int)));
        if at >= s.len() {
            assert(parts_of(s@, spans@) =~= split(s@, sep));
            return spans;
        }
        assert(split(s@, sep) =~= parts_of(s@, spans@) + split_from(s@, sep, at + 1));
        from = at + 1;
    }
}

/// Splits into lines.
pub fn line_spans(s: &[char]) -> (spans: Vec<Span>)
    ensures
        spans_inside(spans@, s@.len()),
        parts_of(s@, spans@) == lines(s@),
{
    let mut spans: Vec<Span> = Vec::new();
    let mut from: usize = 0;
    assert(parts_of(s@, spans@) =~= Seq::empty());
    while from < s.len()
        invariant
            from <= s@.len(),
            spans_inside(spans@, s@.len()),
            lines(s@) == parts_of(s@, spans@) + lines_from(s@, from as int),
        decreases s@.len() - from,
    {
        let at = find_char(s, '\n', from);
        let ghost before = parts_of(s@, spans@);
        spans.push(Span { start: from, end: at });
        assert(parts_of(s@, spans@) =~= before.push(s@.subrange(from as int, at as int)));
        proof {
            lemma_scan_bounds(s@, '\n', from as int);
        }
        if at >= s.len() {
            from = at;
        } else {
            from = at + 1;
        }
        assert(lines(s@) =~= parts_of(s@, spans@) + lines_from(s@, from as int));
    }
    assert(parts_of(s@, spans@) =~= lines(s@));
    spans
}

/// Splits into words.
pub fn word_spans(s: &[char]) -> (spans: Vec<Span>)
    ensures
        spans_inside(spans@, s@.len()),
        parts_of(s@, spans@) == words(s@),
{
    let mut spans: Vec<Span> = Vec::new();
    let mut from: usize = 0;
    assert(parts_of(s@, spans@) =~= Seq::empty());
    loop
        invariant
            from <= s@.len(),
            spans_inside(spans@, s@.len()),
            words(s@) == parts_of(s@, spans@) + words_from(s@, from as int),
        decreases s@.len() - from,
    {
        let start = skip_spaces(s, from);
        if start >= s.len() {
            assert(parts_of(s@, spans@) =~= words(s@));
            return spans;
        }
        let end = skip_word(s, start);
        proof {
            lemma_scan_bounds(s@, ' ', from as int);
            lemma_scan_bounds(s@, ' ', start + 1);
            assert(!is_space(s@[start as int]));
            assert(end > start);
        }
        let ghost before = parts_of(s@, spans@);
        spans.push(Span { start, end });
        assert(parts_of(s@, spans@) =~= before.push(s@.subrange(start as int, end as int)));
        assert(words(s@) =~= parts_of(s@, spans@) + words_from(s@, end as int));
        from = end;
    }
}

/// The part of a slice that a span covers.
pub fn slice_of(s: &[char], span: Span) -> (r: &[char])
    requires
        span.start <= span.end <= s@.len(),
    ensures
        r@ == span_of(s@, span),
{
    vstd::slice::slice_subrange(s, span.start, span.end)
}

/// The string that holds the characters of a slice.
pub fn slice_string(s: &[char]) -> (r: String)
    ensures
        r@ == s@,
{
    let mut r = String::new();
    let mut i: usize = 0;
    while i < s.len()
        invariant
            i <= s@.len(),
            r@ == s@.take(i as int),
        decreases s@.len() - i,
    {
        r.push(s[i]);
        i += 1;
        assert(s@.take(i as int) =~= s@.take(i - 1).push(s@[i - 1]));
    }
    assert(s@.take(s@.len() as int) =~= s@);
    r
}

/// Tests whether a slice spells a text.
pub fn slice_equals(s: &[char], text: &str) -> (r: bool)
    ensures
        r == (s@ == text@),
{
    let other = to_chars(text);
    if s.len() != other.len() {
        return false;
    }
    let mut i: usize = 0;
    while i < s.len()
        invariant
            i <= s@.len(),
            s@.len() == other@.len(),
            other@ == text@,
            forall|k: int| 0 <= k < i ==> s@[k] == other@[k],
        decreases s@.len() - i,
    {
        if s[i] != other[i] {
            return false;
        }
        i += 1;
    }
    assert(s@ =~= other@);
    true
}

/// The value of a decimal digit, if the character is one.
pub open spec fn digit_value(c: char) -> Option<int> {
    if '0' <= c && c <= '9' {
        Some(c as int - '0' as int)
    } else {
        None
    }
}

/// Whether every character is a decimal digit.
pub open spec fn all_digits(s: Seq<char>) -> bool {
    forall|i: int| 0 <= i < s.len() ==> digit_value(#[trigger] s[i]) is Some
}

/// The number that a sequence of digits spells.
pub open spec fn digits_value(s: Seq<char>) -> int
    decreases s.len(),
{
    if s.len() == 0 {
        0
    } else {
        10 * digits_value(s.drop_last()) + digit_value(s.last())->Some_0
    }
}

/// The number that a text spells in decimal notation: an optional plus
/// sign and at least one digit, with a value of at most `max`.
pub open spec fn parse_unsigned(s: Seq<char>, max: int) -> Option<int> {
    let digits = if s.len() > 0 && s[0] == '+' {
        s.skip(1)
    } else {
        s
    };
    if digits.len() == 0 || !all_digits(digits) || digits_value(digits) > max {
        None
    } else {
        Some(digits_value(digits))
    }
}

/// A number never spells less than the number that its first digits
/// spell.
pub proof fn lemma_digits_value_grows(s: Seq<char>, k: int)
    requires
        all_digits(s),
        0 <= k <= s.len(),
    ensures
        0 <= digits_value(s.take(k)) <= digits_value(s),
    decreases s.len(),
{
    if s.len() == 0 {
        assert(s.take(k) =~= s);
    } else if k == s.len() {
        assert(s.take(k) =~= s);
        assert(all_digits(s.drop_last()));
        lemma_digits_value_grows(s.drop_last(), k - 1);
        assert(digit_value(s.last()) is Some);
    } else {
        assert(all_digits(s.drop_last()));
        lemma_digits_value_grows(s.drop_last(), k);
        assert(s.drop_last().take(k) =~= s.take(k));
        assert(digit_value(s.last()) is Some);
    }
}

/// Reads a decimal number of at most `max`.
pub fn parse_number(s: &[char], max: u64) -> (r: Option<u64>)
    requires
        max < 0x1000_0000_0000_0000,
    ensures
        match parse_unsigned(s@, max as int) {
            Some(v) => r == Some(v as u64) && 0 <= v <= max,
            None => r is None,
        },
{
    let start: usize = if s.len() > 0 && s[0] == '+' {
        1
    } else {
        0
    };
    let ghost digits = s@.skip(start as int);
    assert(s@.skip(0) =~= s@);
    if start >= s.len() {
        return None;
    }
    let mut value: u64 = 0;
    let mut i: usize = start;
    assert(digits.take(0) =~= Seq::<char>::empty());
    while i < s.len()
        invariant
            start <= i <= s@.len(),
            digits == s@.skip(start as int),
            digits == (if s@.len() > 0 && s@[0] == '+' {
                s@.skip(1)
            } else {
                s@
            }),
            digits.len() > 0,
            all_digits(digits.take(i - start)),
            value == digits_value(digits.take(i - start)),
            value <= max < 0x1000_0000_0000_0000,
        decreases s@.len() - i,
    {
        let c = s[i];
        assert(digits[i - start] == c);
        if !('0' <= c && c <= '9') {
            assert(digit_value(digits[i - start]) is None);
            return None;
        }
        let d: u64 = (c as u32 - '0' as u32) as u64;
        let ghost prefix = digits.take(i - start + 1);
        assert(prefix.drop_last() =~= digits.take(i - start));
        assert(prefix.last() == c);
        assert(all_digits(prefix)) by {
            assert forall|k: int| 0 <= k < prefix.len() implies digit_value(
                #[trigger] prefix[k],
            ) is Some by {
                if k < prefix.len() - 1 {
                    assert(digits.take(i - start)[k] == prefix[k]);
                }
            }
        }
        let next: u64 = value * 10 + d;
        if next > max {
            proof {
                if all_digits(digits) {
                    lemma_digits_value_grows(digits, i - start + 1);
                }
            }
            return None;
        }
        value = next;
        i += 1;
    }
    assert(digits.take(digits.len() as int) =~= digits);
    Some(value)
}

/// Reads a 32-bit decimal number.
pub fn parse_u32(s: &[char]) -> (r: Option<u32>)
    ensures
        match parse_unsigned(s@, u32::MAX as int) {
            Some(v) => r == Some(v as u32) && 0 <= v <= u32::MAX,
            None => r is None,
        },
{
    match parse_number(s, u32::MAX as u64) {
        Some(v) => Some(v as u32),
        None => None,
    }
}

/// Reads a 16-bit decimal number.
pub fn parse_u16(s: &[char]) -> (r: Option<u16>)
    ensures
        match parse_unsigned(s@, u16::MAX as int) {
            Some(v) => r == Some(v as u16) && 0 <= v <= u16::MAX,
            None => r is None,
        },
{
    match parse_number(s, u16::MAX as u64) {
        Some(v) => Some(v as u16),
        None => None,
    }
}

} // verus!
