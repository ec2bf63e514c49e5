//! The matching of source cursor names against the standard Windows
//! names, by which the mapping editor proposes a source for every role.

use crate::text::{is_space, is_whitespace, to_chars, Span};
use vstd::prelude::*;

verus! {

/// The lower-case form of a text, as `str::to_lowercase` gives it.
pub uninterp spec fn lowercased(s: Seq<char>) -> Seq<char>;

/// `str::to_lowercase`: the text with every character in lower case.
pub assume_specification[ str::to_lowercase ](s: &str) -> (r: String)
    ensures
        r@ == lowercased(s@),
;

/// Whether a character separates the words of a name: white space, a
/// hyphen or an underscore.
pub open spec fn is_separator(c: char) -> bool {
    is_space(c) || c == '-' || c == '_'
}

/// The number of bytes that a character takes in UTF-8.
pub open spec fn char_width(c: char) -> int {
    if '\u{80}' > c {
        1
    } else if '\u{800}' > c {
        2
    } else if '\u{10000}' > c {
        3
    } else {
        4
    }
}

/// The number of bytes that a text takes in UTF-8.
pub open spec fn byte_len(s: Seq<char>) -> int
    decreases s.len(),
{
    if s.len() == 0 {
        0
    } else {
        byte_len(s.drop_last()) + char_width(s.last())
    }
}

/// The index of the first separator at or after `from`, or the length.
pub open spec fn term_end(s: Seq<char>, from: int) -> int
    decreases s.len() - from,
{
    if from >= s.len() {
        s.len() as int
    } else if is_separator(s[from]) {
        from
    } else {
        term_end(s, from + 1)
    }
}

/// A term ends behind its start, and inside the text.
pub proof fn lemma_term_end(s: Seq<char>, from: int)
    requires
        0 <= from <= s.len(),
    ensures
        from <= term_end(s, from) <= s.len(),
    decreases s.len() - from,
{
    if from < s.len() && !is_separator(s[from]) {
        lemma_term_end(s, from + 1);
    }
}

/// The terms of a name from `from` on: the pieces between separators that
/// take two bytes or more.
pub open spec fn terms_from(s: Seq<char>, from: int) -> Seq<Seq<char>>
    decreases s.len() - from,
{
    if from < 0 || from >= s.len() {
        Seq::empty()
    } else {
        proof {
            lemma_term_end(s, from);
        }
        let piece = s.subrange(from, term_end(s, from));
        let rest = if term_end(s, from) >= s.len() {
            Seq::empty()
        } else {
            terms_from(s, term_end(s, from) + 1)
        };
        if byte_len(piece) >= 2 {
            seq![piece] + rest
        } else {
            rest
        }
    }
}

/// The terms of a name.
pub open spec fn terms(s: Seq<char>) -> Seq<Seq<char>> {
    terms_from(s, 0)
}

/// Whether a text opens another.
pub open spec fn is_prefix(p: Seq<char>, s: Seq<char>) -> bool {
    p.len() <= s.len() && s.subrange(0, p.len() as int) == p
}

/// Whether a text stands somewhere in another.
pub open spec fn is_infix(p: Seq<char>, s: Seq<char>) -> bool {
    exists|k: int| 0 <= k <= s.len() - p.len() && #[trigger] s.subrange(k, k + p.len()) == p
}

/// The smaller of two numbers.
pub open spec fn smaller(a: int, b: int) -> int {
    if a <= b {
        a
    } else {
        b
    }
}

/// How well a term of a source name matches a term of a standard name:
/// ten points per byte where they are equal, five per byte of the shorter
/// where one opens the other, two where one stands in the other, none
/// otherwise.
pub open spec fn term_score(source: Seq<char>, target: Seq<char>) -> int {
    if source == target {
        byte_len(target) * 10
    } else if is_prefix(target, source) || is_prefix(source, target) {
        smaller(byte_len(source), byte_len(target)) * 5
    } else if is_infix(target, source) || is_infix(source, target) {
        smaller(byte_len(source), byte_len(target)) * 2
    } else {
        0
    }
}

/// The best score of a term of a standard name against the first `k`
/// terms of a source name.
pub open spec fn best_term_score(sources: Seq<Seq<char>>, target: Seq<char>, k: int) -> int
    decreases k,
{
    if k <= 0 {
        0
    } else if term_score(sources[k - 1], target) > best_term_score(sources, target, k - 1) {
        term_score(sources[k - 1], target)
    } else {
        best_term_score(sources, target, k - 1)
    }
}

/// The sum of the best scores of the first `k` terms of a standard name.
pub open spec fn total_score(sources: Seq<Seq<char>>, targets: Seq<Seq<char>>, k: int) -> int
    decreases k,
{
    if k <= 0 {
        0
    } else {
        total_score(sources, targets, k - 1) + best_term_score(
            sources,
            targets[k - 1],
            sources.len() as int,
        )
    }
}

/// The score of a source name against a standard name, in lower case:
/// the sum over the terms of the standard name of the best match among
/// the terms of the source name, capped at the largest number; or none
/// where no term matches.
pub open spec fn match_score(source: Seq<char>, target: Seq<char>) -> Option<usize> {
    let sources = terms(lowercased(source));
    let targets = terms(lowercased(target));
    let total = total_score(sources, targets, targets.len() as int);
    if total <= 0 {
        None
    } else if total > usize::MAX {
        Some(usize::MAX)
    } else {
        Some(total as usize)
    }
}

/// Scores are never negative.
pub proof fn lemma_scores_not_negative(sources: Seq<Seq<char>>, targets: Seq<Seq<char>>, k: int)
    ensures
        best_term_score(sources, targets[0], k) >= 0,
        forall|t: Seq<char>| best_term_score(sources, t, k) >= 0,
        total_score(sources, targets, k) >= 0,
    decreases k,
{
    if k > 0 {
        lemma_scores_not_negative(sources, targets, k - 1);
        assert forall|t: Seq<char>| best_term_score(sources, t, sources.len() as int) >= 0 by {
            lemma_best_not_negative(sources, t, sources.len() as int);
        }
    }
    assert forall|t: Seq<char>| best_term_score(sources, t, k) >= 0 by {
        lemma_best_not_negative(sources, t, k);
    }
}

proof fn lemma_best_not_negative(sources: Seq<Seq<char>>, target: Seq<char>, k: int)
    ensures
        best_term_score(sources, target, k) >= 0,
    decreases k,
{
    if k > 0 {
        lemma_best_not_negative(sources, target, k - 1);
    }
}

/// The number of bytes of a text is never negative.
pub proof fn lemma_byte_len(s: Seq<char>)
    ensures
        0 <= byte_len(s) <= 4 * s.len(),
    decreases s.len(),
{
    if s.len() > 0 {
        lemma_byte_len(s.drop_last());
    }
}

/// Tests whether a character separates words.
fn separates(c: char) -> (r: bool)
    ensures
        r == is_separator(c),
{
    is_whitespace(c) || c == '-' || c == '_'
}

/// Counts the bytes of a text.
fn utf8_len(s: &[char]) -> (n: u128)
    ensures
        n == byte_len(s@),
        n <= 4 * usize::MAX,
{
    let mut n: u128 = 0;
    let mut i: usize = 0;
    while i < s.len()
        invariant
            i <= s@.len() == s.len(),
            n == byte_len(s@.take(i as int)),
            n <= 4 * i,
        decreases s@.len() - i,
    {
        let c = s[i];
        let w: u128 = if '\u{80}' > c {
            1
        } else if '\u{800}' > c {
            2
        } else if '\u{10000}' > c {
            3
        } else {
            4
        };
        assert(s@.take(i + 1).drop_last() =~= s@.take(i as int));
        n = n + w;
        i += 1;
    }
    assert(s@.take(s@.len() as int) =~= s@);
    n
}

/// Lists the terms of a name.
fn term_spans(s: &[char]) -> (spans: Vec<Span>)
    ensures
        crate::text::spans_inside(spans@, s@.len()),
        crate::text::parts_of(s@, spans@) == terms(s@),
{
    let mut spans: Vec<Span> = Vec::new();
    let mut from: usize = 0;
    assert(crate::text::parts_of(s@, spans@) =~= Seq::empty());
    while from < s.len()
        invariant
            from <= s@.len(),
            crate::text::spans_inside(spans@, s@.len()),
            terms(s@) == crate::text::parts_of(s@, spans@) + terms_from(s@, from as int),
        decreases s@.len() - from,
    {
        let mut end = from;
        while end < s.len() && !separates(s[end])
            invariant
                from <= end <= s@.len(),
                term_end(s@, end as int) == term_end(s@, from as int),
            decreases s@.len() - end,
        {
            end += 1;
        }
        let piece = vstd::slice::slice_subrange(s, from, end);
        if utf8_len(piece) >= 2 {
            let ghost before = crate::text::parts_of(s@, spans@);
            spans.push(Span { start: from, end });
            assert(crate::text::parts_of(s@, spans@) =~= before.push(piece@));
        }
        if end >= s.len() {
            from = end;
        } else {
            from = end + 1;
        }
        assert(terms(s@) =~= crate::text::parts_of(s@, spans@) + terms_from(s@, from as int));
    }
    assert(crate::text::parts_of(s@, spans@) =~= terms(s@));
    spans
}

/// Tests whether a text stands in another at a position.
fn stands_at(p: &[char], s: &[char], k: usize) -> (r: bool)
    requires
        k + p@.len() <= s@.len(),
    ensures
        r == (s@.subrange(k as int, k + p@.len()) == p@),
{
    let mut i: usize = 0;
    while i < p.len()
        invariant
            i <= p@.len(),
            k + p@.len() <= s@.len() == s.len(),
            forall|j: int| 0 <= j < i ==> s@[k + j] == p@[j],
        decreases p@.len() - i,
    {
        if s[k + i] != p[i] {
            assert(s@.subrange(k as int, k + p@.len())[i as int] != p@[i as int]);
            return false;
        }
        i += 1;
    }
    assert(s@.subrange(k as int, k + p@.len()) =~= p@);
    true
}

/// Tests whether a text opens another.
fn opens(p: &[char], s: &[char]) -> (r: bool)
    ensures
        r == is_prefix(p@, s@),
{
    p.len() <= s.len() && stands_at(p, s, 0)
}

/// Tests whether a text stands somewhere in another.
fn stands_in(p: &[char], s: &[char]) -> (r: bool)
    ensures
        r == is_infix(p@, s@),
{
    if p.len() > s.len() {
        return false;
    }
    let last = s.len() - p.len();
    let mut k: usize = 0;
    loop
        invariant
            k <= last,
            last == s@.len() - p@.len(),
            forall|j: int| 0 <= j < k ==> #[trigger] s@.subrange(j, j + p@.len()) != p@,
        decreases last - k,
    {
        if stands_at(p, s, k) {
            return true;
        }
        if k == last {
            return false;
        }
        k += 1;
    }
}

/// Scores a term of a source name against a term of a standard name.
fn score_terms(source: &[char], target: &[char]) -> (r: u128)
    ensures
        r == term_score(source@, target@),
        r <= 40 * usize::MAX,
{
    let slen = utf8_len(source);
    let tlen = utf8_len(target);
    let common = if slen <= tlen {
        slen
    } else {
        tlen
    };
    let same = source.len() == target.len() && stands_at(source, target, 0);
    proof {
        if source@.len() == target@.len() {
            assert(target@.subrange(0, source@.len() as int) =~= target@);
        }
    }
    if same {
        tlen * 10
    } else if opens(target, source) || opens(source, target) {
        common * 5
    } else if stands_in(target, source) || stands_in(source, target) {
        common * 2
    } else {
        0
    }
}

/// Scores how well a source name matches a standard name.
pub fn score_match(source: &str, target: &str) -> (r: Option<usize>)
    ensures
        r == match_score(source@, target@),
{
    let source_lower = to_chars(source.to_lowercase().as_str());
    let target_lower = to_chars(target.to_lowercase().as_str());
    let source_words = term_spans(source_lower.as_slice());
    let target_words = term_spans(target_lower.as_slice());
    let ghost sources = terms(source_lower@);
    let ghost targets = terms(target_lower@);
    let mut total: u128 = 0;
    let mut capped = false;
    let mut t: usize = 0;
    while t < target_words.len()
        invariant
            t <= target_words@.len(),
            sources == terms(source_lower@),
            targets == terms(target_lower@),
            crate::text::spans_inside(source_words@, source_lower@.len()),
            crate::text::parts_of(source_lower@, source_words@) == sources,
            crate::text::spans_inside(target_words@, target_lower@.len()),
            crate::text::parts_of(target_lower@, target_words@) == targets,
            total_score(sources, targets, t as int) >= 0,
            capped ==> total_score(sources, targets, t as int) > usize::MAX,
            !capped ==> total == total_score(sources, targets, t as int) && total <= usize::MAX,
        decreases target_words@.len() - t,
    {
        let target_word = crate::text::slice_of(target_lower.as_slice(), target_words[t]);
        assert(targets[t as int] == target_word@) by {
            assert(crate::text::parts_of(target_lower@, target_words@)[t as int]
                == target_word@);
        }
        let mut best: u128 = 0;
        let mut s: usize = 0;
        while s < source_words.len()
            invariant
                s <= source_words@.len(),
                sources == terms(source_lower@),
                crate::text::spans_inside(source_words@, source_lower@.len()),
                crate::text::parts_of(source_lower@, source_words@) == sources,
                best == best_term_score(sources, target_word@, s as int),
                best <= 40 * usize::MAX,
            decreases source_words@.len() - s,
        {
            let source_word = crate::text::slice_of(source_lower.as_slice(), source_words[s]);
            assert(sources[s as int] == source_word@) by {
                assert(crate::text::parts_of(source_lower@, source_words@)[s as int]
                    == source_word@);
            }
            let score = score_terms(source_word, target_word);
            if score > best {
                best = score;
            }
            s += 1;
        }
        assert(sources.len() == source_words@.len()) by {
            assert(crate::text::parts_of(source_lower@, source_words@).len()
                == source_words@.len());
        }
        proof {
            lemma_scores_not_negative(sources, targets, t + 1);
        }
        if !capped {
            total = total + best;
            if total > usize::MAX as u128 {
                capped = true;
            }
        }
        t += 1;
    }
    assert(targets.len() == target_words@.len()) by {
        assert(crate::text::parts_of(target_lower@, target_words@).len()
            == target_words@.len());
    }
    if capped {
        Some(usize::MAX)
    } else if total == 0 {
        None
    } else {
        Some(total as usize)
    }
}

/// Whether the candidate at index `j` beats the one at index `i`: by a
/// higher score, or at the same score by a name that is not longer.
pub open spec fn beats(sources: Seq<String>, target: Seq<char>, j: int, i: int) -> bool {
    let a = match_score(sources[i]@, target)->Some_0;
    let b = match_score(sources[j]@, target)->Some_0;
    b > a || (b == a && byte_len(sources[j]@) <= byte_len(sources[i]@))
}

/// The index of the best match among the first `k` sources: the one with
/// the highest score, of those the one with the shortest name, of those
/// the last. It is -1 where no source matches.
pub open spec fn best_match(sources: Seq<String>, target: Seq<char>, k: int) -> int
    decreases k,
{
    if k <= 0 {
        -1
    } else {
        let before = best_match(sources, target, k - 1);
        if match_score(sources[k - 1]@, target) is None {
            before
        } else if before < 0 || beats(sources, target, k - 1, before) {
            k - 1
        } else {
            before
        }
    }
}

/// The best match names a source.
pub proof fn lemma_best_match_bounds(sources: Seq<String>, target: Seq<char>, k: int)
    requires
        0 <= k <= sources.len(),
    ensures
        -1 <= best_match(sources, target, k) < k,
        best_match(sources, target, k) >= 0 ==> match_score(
            sources[best_match(sources, target, k)]@,
            target,
        ) is Some,
    decreases k,
{
    if k > 0 {
        lemma_best_match_bounds(sources, target, k - 1);
    }
}

/// Finds the source that matches a standard name best.
pub fn find_best_match<'a>(sources: &'a Vec<String>, target: &str) -> (r: Option<&'a String>)
    ensures
        best_match(sources@, target@, sources@.len() as int) < 0 ==> r is None,
        best_match(sources@, target@, sources@.len() as int) >= 0 ==> r == Some(
            &sources@[best_match(sources@, target@, sources@.len() as int)],
        ),
{
    let mut best: Option<(usize, usize, u128)> = None;
    let mut k: usize = 0;
    while k < sources.len()
        invariant
            k <= sources@.len(),
            match best {
                None => best_match(sources@, target@, k as int) == -1,
                Some((at, score, length)) => {
                    &&& at == best_match(sources@, target@, k as int)
                    &&& at < k
                    &&& match_score(sources@[at as int]@, target@) == Some(score)
                    &&& length == byte_len(sources@[at as int]@)
                },
            },
        decreases sources@.len() - k,
    {
        match score_match(sources[k].as_str(), target) {
            None => {},
            Some(score) => {
                let chars = to_chars(sources[k].as_str());
                let length = utf8_len(chars.as_slice());
                let better = match best {
                    None => true,
                    Some((_, best_score, best_length)) => score > best_score || (score
                        == best_score && length <= best_length),
                };
                if better {
                    best = Some((k, score, length));
                }
            },
        }
        k += 1;
    }
    match best {
        None => None,
        Some((at, _, _)) => Some(&sources[at]),
    }
}

} // verus!
