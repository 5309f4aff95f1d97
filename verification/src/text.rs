//! Character-sequence algorithms: literal search, literal replacement and
//! splitting on a separator, each with the sequence-level function it computes.

use vstd::prelude::*;
use vstd::string::StringExecFns;

verus! {

/// `pattern` stands in `text` at index `at`.
pub open spec fn occurs_at(text: Seq<char>, pattern: Seq<char>, at: int) -> bool {
    &&& 0 <= at
    &&& at + pattern.len() <= text.len()
    &&& text.subrange(at, at + pattern.len()) == pattern
}

/// `pattern` stands somewhere in `text`. The empty pattern stands in every text.
pub open spec fn contains(text: Seq<char>, pattern: Seq<char>) -> bool {
    exists|at: int| occurs_at(text, pattern, at)
}

/// `text` ends in `suffix`. Every text ends in the empty suffix.
pub open spec fn ends_with(text: Seq<char>, suffix: Seq<char>) -> bool {
    occurs_at(text, suffix, text.len() - suffix.len())
}

/// `text` without `suffix` at its end: where the text ends in the suffix,
/// the text before that one occurrence, and else the text as it is. The
/// suffix is taken off once, and an occurrence elsewhere stays.
pub open spec fn without_suffix(text: Seq<char>, suffix: Seq<char>) -> Seq<char> {
    if ends_with(text, suffix) {
        text.take(text.len() - suffix.len())
    } else {
        text
    }
}

/// `text` with every occurrence of `pattern` replaced by `with`, scanning from
/// the left; an occurrence that overlaps an earlier, replaced one is not
/// replaced. Text outside the replaced occurrences is kept as it is, and an
/// empty pattern replaces nothing.
pub open spec fn replaced(text: Seq<char>, pattern: Seq<char>, with: Seq<char>) -> Seq<char>
    decreases text.len(),
{
    if pattern.len() == 0 || text.len() == 0 {
        text
    } else if occurs_at(text, pattern, 0) {
        with + replaced(text.skip(pattern.len() as int), pattern, with)
    } else {
        seq![text[0]] + replaced(text.skip(1), pattern, with)
    }
}

/// A text in which the pattern does not occur is left unchanged.
pub proof fn lemma_replaced_without_occurrence(
    text: Seq<char>,
    pattern: Seq<char>,
    with: Seq<char>,
)
    requires
        !contains(text, pattern),
    ensures
        replaced(text, pattern, with) == text,
    decreases text.len(),
{
    if pattern.len() != 0 && text.len() != 0 {
        assert(!occurs_at(text, pattern, 0));
        let rest = text.skip(1);
        assert forall|at: int| !occurs_at(rest, pattern, at) by {
            if occurs_at(rest, pattern, at) {
                assert(rest.subrange(at, at + pattern.len()) == text.subrange(
                    at + 1,
                    at + 1 + pattern.len(),
                ));
                assert(occurs_at(text, pattern, at + 1));
            }
        }
        lemma_replaced_without_occurrence(rest, pattern, with);
        assert(seq![text[0]] + rest == text);
    }
}

/// Where the first occurrence of the pattern stands at `first`, the text
/// before it is kept, the occurrence becomes `with`, and in what follows
/// the occurrences are replaced in the same way.
pub proof fn lemma_replaced_at_first_occurrence(
    text: Seq<char>,
    pattern: Seq<char>,
    with: Seq<char>,
    first: int,
)
    requires
        pattern.len() > 0,
        occurs_at(text, pattern, first),
        forall|at: int| 0 <= at < first ==> !occurs_at(text, pattern, at),
    ensures
        replaced(text, pattern, with) == text.take(first) + with + replaced(
            text.skip(first + pattern.len()),
            pattern,
            with,
        ),
    decreases first,
{
    if first == 0 {
        assert(text.take(0) + with == with);
    } else {
        let rest = text.skip(1);
        assert(!occurs_at(text, pattern, 0));
        assert(rest.subrange(first - 1, first - 1 + pattern.len()) == text.subrange(
            first,
            first + pattern.len(),
        ));
        assert forall|at: int| 0 <= at < first - 1 implies !occurs_at(rest, pattern, at) by {
            if occurs_at(rest, pattern, at) {
                assert(rest.subrange(at, at + pattern.len()) == text.subrange(
                    at + 1,
                    at + 1 + pattern.len(),
                ));
                assert(occurs_at(text, pattern, at + 1));
            }
        }
        lemma_replaced_at_first_occurrence(rest, pattern, with, first - 1);
        assert(rest.skip(first - 1 + pattern.len()) == text.skip(first + pattern.len()));
        assert(seq![text[0]] + rest.take(first - 1) == text.take(first));
        let tail = replaced(text.skip(first + pattern.len()), pattern, with);
        assert(seq![text[0]] + (rest.take(first - 1) + with + tail) == text.take(first) + with
            + tail);
    }
}

/// Length of the longest prefix of `text` that holds no `separator`.
pub open spec fn run_length(text: Seq<char>, separator: char) -> nat
    decreases text.len(),
{
    if text.len() == 0 || text[0] == separator {
        0
    } else {
        1 + run_length(text.skip(1), separator)
    }
}

/// The parts of `text` between its separators, in order. A text with `n`
/// separators has `n + 1` parts, so the empty text has the one part `""`.
pub open spec fn split(text: Seq<char>, separator: char) -> Seq<Seq<char>>
    decreases text.len(),
{
    let n = run_length(text, separator);
    if n >= text.len() {
        seq![text]
    } else {
        seq![text.take(n as int)] + split(text.skip(n as int + 1), separator)
    }
}

/// The parts put together again, with one separator between neighbours.
pub open spec fn joined(parts: Seq<Seq<char>>, separator: char) -> Seq<char>
    decreases parts.len(),
{
    if parts.len() == 0 {
        Seq::empty()
    } else if parts.len() == 1 {
        parts[0]
    } else {
        parts[0] + seq![separator] + joined(parts.skip(1), separator)
    }
}

/// How often `separator` stands in `text`.
pub open spec fn count_of(text: Seq<char>, separator: char) -> nat
    decreases text.len(),
{
    if text.len() == 0 {
        0
    } else {
        count_of(text.drop_last(), separator) + if text.last() == separator {
            1nat
        } else {
            0nat
        }
    }
}

/// `run_length` is the index of the first separator, or the length of a
/// text that holds none.
pub proof fn lemma_run_length(text: Seq<char>, separator: char)
    ensures
        run_length(text, separator) <= text.len(),
        forall|k: int| 0 <= k < run_length(text, separator) ==> text[k] != separator,
        run_length(text, separator) < text.len() ==> text[run_length(text, separator) as int]
            == separator,
    decreases text.len(),
{
    if text.len() != 0 && text[0] != separator {
        let rest = text.skip(1);
        lemma_run_length(rest, separator);
        assert forall|k: int| 0 <= k < run_length(text, separator) implies text[k]
            != separator by {
            if k > 0 {
                assert(rest[k - 1] == text[k]);
            }
        }
    }
}

/// A prefix of `n` characters without separator, which ends the text or is
/// followed by a separator, is the whole first run.
pub proof fn lemma_run_length_is(text: Seq<char>, separator: char, n: int)
    requires
        0 <= n <= text.len(),
        forall|k: int| 0 <= k < n ==> text[k] != separator,
        n < text.len() ==> text[n] == separator,
    ensures
        run_length(text, separator) == n,
    decreases n,
{
    if n > 0 {
        let rest = text.skip(1);
        assert forall|k: int| 0 <= k < n - 1 implies rest[k] != separator by {
            assert(rest[k] == text[k + 1]);
        }
        lemma_run_length_is(rest, separator, n - 1);
    }
}

/// Splitting loses nothing: joining the parts gives the text back.
pub proof fn lemma_joined_split(text: Seq<char>, separator: char)
    ensures
        split(text, separator).len() >= 1,
        joined(split(text, separator), separator) == text,
    decreases text.len(),
{
    let n = run_length(text, separator);
    lemma_run_length(text, separator);
    if n < text.len() {
        let rest = text.skip(n as int + 1);
        lemma_joined_split(rest, separator);
        let parts = split(text, separator);
        assert(parts.skip(1) == split(rest, separator));
        assert(text.take(n as int) + seq![separator] + rest == text);
    }
}

/// The empty text has one part, which is empty.
pub proof fn lemma_split_empty(separator: char)
    ensures
        split(Seq::<char>::empty(), separator) == seq![Seq::<char>::empty()],
{
}

/// A text has one part more than it has separators.
pub proof fn lemma_split_count(text: Seq<char>, separator: char)
    ensures
        split(text, separator).len() == count_of(text, separator) + 1,
    decreases text.len(),
{
    let n = run_length(text, separator);
    lemma_run_length(text, separator);
    if n < text.len() {
        let rest = text.skip(n as int + 1);
        lemma_split_count(rest, separator);
        lemma_count_of_both(text.take(n as int + 1), rest, separator);
        assert(text.take(n as int + 1) + rest == text);
        lemma_count_of_plain(text.take(n as int), separator);
        assert(text.take(n as int + 1).drop_last() == text.take(n as int));
    } else {
        lemma_count_of_plain(text, separator);
    }
}

/// A text without separator counts none.
proof fn lemma_count_of_plain(text: Seq<char>, separator: char)
    requires
        forall|k: int| 0 <= k < text.len() ==> text[k] != separator,
    ensures
        count_of(text, separator) == 0,
    decreases text.len(),
{
    if text.len() > 0 {
        lemma_count_of_plain(text.drop_last(), separator);
    }
}

/// The separators of two texts, one behind the other, are those of both.
proof fn lemma_count_of_both(first: Seq<char>, second: Seq<char>, separator: char)
    ensures
        count_of(first + second, separator) == count_of(first, separator) + count_of(
            second,
            separator,
        ),
    decreases second.len(),
{
    if second.len() == 0 {
        assert(first + second == first);
    } else {
        lemma_count_of_both(first, second.drop_last(), separator);
        assert((first + second).drop_last() == first + second.drop_last());
    }
}

/// No part of a split text holds the separator.
pub proof fn lemma_split_parts_hold_no_separator(text: Seq<char>, separator: char)
    ensures
        forall|i: int, k: int|
            0 <= i < split(text, separator).len() && 0 <= k < split(text, separator)[i].len()
                ==> split(text, separator)[i][k] != separator,
    decreases text.len(),
{
    let n = run_length(text, separator);
    let parts = split(text, separator);
    lemma_run_length(text, separator);
    if n < text.len() {
        let rest = text.skip(n as int + 1);
        lemma_split_parts_hold_no_separator(rest, separator);
        assert forall|i: int, k: int| 0 <= i < parts.len() && 0 <= k < parts[i].len() implies
            parts[i][k] != separator by {
            if i > 0 {
                assert(parts[i] == split(rest, separator)[i - 1]);
            }
        }
    }
}

/// `String::push` of the standard library, taken on trust: after the call
/// the string holds the characters that it held before, and `c` behind them.
pub assume_specification[ String::push ](s: &mut String, c: char)
    ensures
        final(s)@ == old(s)@.push(c),
;

/// The characters of `s`, in order.
pub fn chars_of(s: &str) -> (v: Vec<char>)
    ensures
        v@ == s@,
{
    let mut v: Vec<char> = Vec::new();
    for c in it: s.chars()
        invariant
            v@ == it.seq().take(it.index() as int),
    {
        v.push(c);
    }
    v
}

/// The string made of the characters `v[from..to]`, in order.
pub fn string_of(v: &Vec<char>, from: usize, to: usize) -> (s: String)
    requires
        from <= to <= v.len(),
    ensures
        s@ == v@.subrange(from as int, to as int),
{
    let mut s = String::new();
    let mut i: usize = from;
    while i < to
        invariant
            from <= i <= to <= v.len(),
            s@ == v@.subrange(from as int, i as int),
        decreases to - i,
    {
        s.push(v[i]);
        i += 1;
    }
    s
}

/// Whether `pattern` stands in `text` at index `at`.
pub fn matches_at(text: &Vec<char>, pattern: &Vec<char>, at: usize) -> (found: bool)
    ensures
        found == occurs_at(text@, pattern@, at as int),
{
    if at > text.len() || pattern.len() > text.len() - at {
        return false;
    }
    let mut k: usize = 0;
    while k < pattern.len()
        invariant
            k <= pattern.len(),
            at + pattern.len() <= text.len(),
            forall|j: int| 0 <= j < k ==> text@[at + j] == pattern@[j],
        decreases pattern.len() - k,
    {
        if text[at + k] != pattern[k] {
            assert(text@.subrange(at as int, at + pattern.len())[k as int] != pattern@[k as int]);
            return false;
        }
        k += 1;
    }
    assert(text@.subrange(at as int, at + pattern.len()) =~= pattern@);
    true
}

/// Whether `pattern` occurs in `text`.
pub fn has_occurrence(text: &str, pattern: &str) -> (found: bool)
    ensures
        found == contains(text@, pattern@),
{
    let t = chars_of(text);
    let p = chars_of(pattern);
    let mut at: usize = 0;
    while at < t.len()
        invariant
            at <= t.len(),
            t@ == text@,
            p@ == pattern@,
            forall|j: int| 0 <= j < at ==> !occurs_at(t@, p@, j),
        decreases t.len() - at,
    {
        if matches_at(&t, &p, at) {
            return true;
        }
        at += 1;
    }
    matches_at(&t, &p, at)
}

/// `text` without `suffix` at its end.
pub fn strip_suffix(text: &str, suffix: &str) -> (out: String)
    ensures
        out@ == without_suffix(text@, suffix@),
{
    let t = chars_of(text);
    let s = chars_of(suffix);
    if s.len() <= t.len() && matches_at(&t, &s, t.len() - s.len()) {
        assert(t@.subrange(0, t.len() - s.len()) == t@.take(t.len() - s.len()));
        string_of(&t, 0, t.len() - s.len())
    } else {
        assert(t@.subrange(0, t.len() as int) == t@);
        string_of(&t, 0, t.len())
    }
}

/// `text` with every occurrence of `pattern` replaced by `with`.
pub fn replace_all(text: &str, pattern: &str, with: &str) -> (out: String)
    ensures
        out@ == replaced(text@, pattern@, with@),
{
    let t = chars_of(text);
    let p = chars_of(pattern);
    if p.len() == 0 {
        return string_of(&t, 0, t.len());
    }
    let mut out = String::new();
    let mut at: usize = 0;
    assert(t@.skip(0) == t@);
    assert(out@ + replaced(t@, p@, with@) == replaced(t@, p@, with@));
    while at < t.len()
        invariant
            at <= t.len(),
            p.len() > 0,
            out@ + replaced(t@.skip(at as int), p@, with@) == replaced(t@, p@, with@),
        decreases t.len() - at,
    {
        let ghost rest = t@.skip(at as int);
        proof {
            if at + p@.len() <= t@.len() {
                assert(rest.subrange(0, p@.len() as int) == t@.subrange(
                    at as int,
                    at + p@.len(),
                ));
            }
            assert(occurs_at(rest, p@, 0) == occurs_at(t@, p@, at as int));
        }
        if matches_at(&t, &p, at) {
            proof {
                assert(rest.skip(p@.len() as int) == t@.skip(at + p@.len()));
                let tail = replaced(t@.skip(at + p@.len()), p@, with@);
                assert(out@ + (with@ + tail) == (out@ + with@) + tail);
            }
            out.append(with);
            at += p.len();
        } else {
            proof {
                assert(rest.skip(1) == t@.skip(at + 1));
                let tail = replaced(t@.skip(at + 1), p@, with@);
                assert(out@ + (seq![t@[at as int]] + tail) == out@.push(t@[at as int]) + tail);
            }
            out.push(t[at]);
            at += 1;
        }
    }
    assert(out@ + Seq::<char>::empty() == out@);
    out
}

/// The parts of `text` between its occurrences of `separator`.
pub fn split_on(text: &str, separator: char) -> (parts: Vec<String>)
    ensures
        parts.deep_view() == split(text@, separator),
{
    let t = chars_of(text);
    let mut parts: Vec<String> = Vec::new();
    let mut start: usize = 0;
    let mut at: usize = 0;
    assert(t@.skip(0) == t@);
    assert(parts.deep_view() + split(t@, separator) == split(t@, separator));
    while at < t.len()
        invariant
            start <= at <= t.len(),
            forall|k: int| start <= k < at ==> t@[k] != separator,
            parts.deep_view() + split(t@.skip(start as int), separator) == split(t@, separator),
        decreases t.len() - at,
    {
        if t[at] == separator {
            let part = string_of(&t, start, at);
            proof {
                let rest = t@.skip(start as int);
                lemma_run_length_is(rest, separator, at - start);
                assert(rest.take(at - start) == t@.subrange(start as int, at as int));
                assert(rest.skip(at - start + 1) == t@.skip(at + 1));
                let tail = split(t@.skip(at + 1), separator);
                assert(parts.deep_view() + (seq![part@] + tail) == parts.deep_view().push(part@)
                    + tail);
            }
            let ghost before = parts.deep_view();
            parts.push(part);
            assert(parts.deep_view() == before.push(part@));
            start = at + 1;
        }
        at += 1;
    }
    let part = string_of(&t, start, at);
    proof {
        let rest = t@.skip(start as int);
        lemma_run_length_is(rest, separator, at - start);
        assert(rest == t@.subrange(start as int, at as int));
    }
    let ghost before = parts.deep_view();
    parts.push(part);
    assert(parts.deep_view() == before.push(part@));
    parts
}

} // verus!
