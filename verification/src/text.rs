//! Character-sequence utilities shared by the other modules.
//!
//! Strings are viewed as `Seq<char>`; the executable functions work on
//! `Vec<char>` and convert at the edges.

use vstd::prelude::*;

verus! {

/// `String::push` of std appends the character to the end of the string.
pub assume_specification[ std::string::String::push ](s: &mut String, c: char)
    ensures
        final(s)@ == old(s)@.push(c),
;

/// The characters of `s`, in order.
pub fn chars_of(s: &str) -> (v: Vec<char>)
    ensures
        v@ == s@,
{
    let mut v: Vec<char> = Vec::new();
    for c in it: s.chars()
        invariant
            v@ == it.seq().take(it.index() as int),
            it.seq() == s@,
    {
        v.push(c);
    }
    v
}

/// The string made of the characters of `v`, in order.
pub fn string_of(v: &Vec<char>) -> (s: String)
    ensures
        s@ == v@,
{
    let mut s = String::new();
    let mut i: usize = 0;
    while i < v.len()
        invariant
            i <= v.len(),
            s@ == v@.take(i as int),
        decreases v.len() - i,
    {
        s.push(v[i]);
        i += 1;
    }
    s
}

/// Whether `c` is white space in the sense of `char::is_whitespace`.
pub uninterp spec fn is_whitespace_char(c: char) -> bool;

/// `char::is_whitespace` of std tells whether the character has the Unicode
/// property `White_Space`. The answer depends on the character alone; which
/// characters have the property is not stated here.
pub assume_specification[ char::is_whitespace ](c: char) -> (b: bool)
    ensures
        b == is_whitespace_char(c),
;

/// `s` without its leading white space.
pub open spec fn trim_start(s: Seq<char>) -> Seq<char>
    decreases s.len(),
{
    if s.len() > 0 && is_whitespace_char(s[0]) {
        trim_start(s.drop_first())
    } else {
        s
    }
}

/// `s` without its trailing white space.
pub open spec fn trim_end(s: Seq<char>) -> Seq<char>
    decreases s.len(),
{
    if s.len() > 0 && is_whitespace_char(s.last()) {
        trim_end(s.drop_last())
    } else {
        s
    }
}

/// `s` without leading and trailing white space.
pub open spec fn trim(s: Seq<char>) -> Seq<char> {
    trim_end(trim_start(s))
}

/// Dropping `k` leading white-space characters, up to the first character
/// that is none, is what `trim_start` does.
pub proof fn lemma_trim_start(s: Seq<char>, k: int)
    requires
        0 <= k <= s.len(),
        forall|j: int| 0 <= j < k ==> is_whitespace_char(s[j]),
        k == s.len() || !is_whitespace_char(s[k]),
    ensures
        trim_start(s) == s.subrange(k, s.len() as int),
    decreases k,
{
    if k > 0 {
        lemma_trim_start(s.drop_first(), k - 1);
    }
}

/// Keeping the first `k` characters, where everything after them is white
/// space and the last of them is not, is what `trim_end` does.
pub proof fn lemma_trim_end(s: Seq<char>, k: int)
    requires
        0 <= k <= s.len(),
        forall|j: int| k <= j < s.len() ==> is_whitespace_char(s[j]),
        k == 0 || !is_whitespace_char(s[k - 1]),
    ensures
        trim_end(s) == s.subrange(0, k),
    decreases s.len() - k,
{
    if k < s.len() {
        lemma_trim_end(s.drop_last(), k);
    }
}

/// Removes leading and trailing white space.
pub fn trim_chars(v: &Vec<char>) -> (r: Vec<char>)
    ensures
        r@ == trim(v@),
{
    let n: usize = v.len();
    let mut start: usize = 0;
    while start < n && v[start].is_whitespace()
        invariant
            start <= n,
            n == v.len(),
            forall|j: int| 0 <= j < start ==> is_whitespace_char(v@[j]),
        decreases n - start,
    {
        start += 1;
    }
    let mut end: usize = n;
    while end > start && v[end - 1].is_whitespace()
        invariant
            start <= end <= n,
            n == v.len(),
            forall|j: int| end <= j < n ==> is_whitespace_char(v@[j]),
        decreases end,
    {
        end -= 1;
    }
    let mut r: Vec<char> = Vec::new();
    let mut i: usize = start;
    while i < end
        invariant
            start <= i <= end <= n,
            n == v.len(),
            r@ == v@.subrange(start as int, i as int),
        decreases end - i,
    {
        r.push(v[i]);
        i += 1;
    }
    proof {
        let middle = v@.subrange(start as int, n as int);
        lemma_trim_start(v@, start as int);
        lemma_trim_end(middle, end - start);
    }
    r
}

/// Whether `pattern` occurs in `s` starting at index `at`.
pub open spec fn occurs_at(s: Seq<char>, pattern: Seq<char>, at: int) -> bool {
    &&& 0 <= at
    &&& at + pattern.len() <= s.len()
    &&& s.subrange(at, at + pattern.len()) == pattern
}

/// Whether `pattern` occurs somewhere in `s`.
pub open spec fn contains(s: Seq<char>, pattern: Seq<char>) -> bool {
    exists|at: int| occurs_at(s, pattern, at)
}

/// `s` with every occurrence of `from` replaced by `to`, occurrences being
/// taken from the left and never overlapping. An empty `from` counts as
/// occurring nowhere.
pub open spec fn replace_all(s: Seq<char>, from: Seq<char>, to: Seq<char>) -> Seq<char>
    decreases s.len(),
{
    if s.len() == 0 || from.len() == 0 {
        s
    } else if occurs_at(s, from, 0) {
        to + replace_all(s.subrange(from.len() as int, s.len() as int), from, to)
    } else {
        seq![s[0]] + replace_all(s.drop_first(), from, to)
    }
}

/// Replacing what does not occur changes nothing.
pub proof fn lemma_replace_without_occurrence(s: Seq<char>, from: Seq<char>, to: Seq<char>)
    requires
        !contains(s, from),
    ensures
        replace_all(s, from, to) == s,
    decreases s.len(),
{
    if s.len() > 0 && from.len() > 0 {
        let rest = s.drop_first();
        assert forall|at: int| !occurs_at(rest, from, at) by {
            if occurs_at(rest, from, at) {
                assert(rest.subrange(at, at + from.len()) == s.subrange(
                    at + 1,
                    at + 1 + from.len(),
                ));
                assert(occurs_at(s, from, at + 1));
            }
        }
        lemma_replace_without_occurrence(rest, from, to);
    }
}

/// Tells whether `pattern` occurs in `s` at index `at`.
pub fn occurs_at_index(s: &Vec<char>, pattern: &Vec<char>, at: usize) -> (b: bool)
    ensures
        b == occurs_at(s@, pattern@, at as int),
{
    let n: usize = s.len();
    let m: usize = pattern.len();
    if at > n || m > n - at {
        return false;
    }
    let mut k: usize = 0;
    while k < m
        invariant
            k <= m,
            m == pattern.len(),
            n == s.len(),
            at + m <= n,
            forall|j: int| 0 <= j < k ==> s@[at + j] == pattern@[j],
        decreases m - k,
    {
        if s[at + k] != pattern[k] {
            proof {
                let window = s@.subrange(at as int, at + m);
                assert(window[k as int] == s@[at + k]);
            }
            return false;
        }
        k += 1;
    }
    proof {
        let window = s@.subrange(at as int, at + m);
        assert forall|j: int| 0 <= j < m implies window[j] == pattern@[j] by {
            assert(window[j] == s@[at + j]);
        }
        assert(window =~= pattern@);
    }
    true
}

/// Tells whether `pattern` occurs somewhere in `s`.
pub fn contains_chars(s: &Vec<char>, pattern: &Vec<char>) -> (b: bool)
    ensures
        b == contains(s@, pattern@),
{
    let n: usize = s.len();
    let mut at: usize = 0;
    while at <= n
        invariant
            at <= n + 1,
            n == s.len(),
            forall|j: int| 0 <= j < at ==> !occurs_at(s@, pattern@, j),
        decreases n + 1 - at,
    {
        if occurs_at_index(s, pattern, at) {
            return true;
        }
        if at == n {
            return false;
        }
        at += 1;
    }
    false
}

/// Replaces every occurrence of `from` in `s` by `to`. An empty `from`
/// occurs nowhere.
pub fn replace_chars(s: &Vec<char>, from: &Vec<char>, to: &Vec<char>) -> (r: Vec<char>)
    ensures
        r@ == replace_all(s@, from@, to@),
{
    let n: usize = s.len();
    let m: usize = from.len();
    if m == 0 {
        return prefix_chars(s, n);
    }
    let mut r: Vec<char> = Vec::new();
    let mut i: usize = 0;
    proof {
        assert(s@.subrange(0, n as int) == s@);
        assert(r@ + replace_all(s@, from@, to@) == replace_all(s@, from@, to@));
    }
    while i < n
        invariant
            i <= n,
            n == s.len(),
            m == from.len(),
            m > 0,
            r@ + replace_all(s@.subrange(i as int, n as int), from@, to@) == replace_all(
                s@,
                from@,
                to@,
            ),
        decreases n - i,
    {
        let ghost rest = s@.subrange(i as int, n as int);
        let ghost before = r@;
        if occurs_at_index(s, from, i) {
            proof {
                assert(rest.subrange(0, m as int) == s@.subrange(i as int, i + m));
                assert(rest.subrange(m as int, rest.len() as int) == s@.subrange(
                    i + m,
                    n as int,
                ));
            }
            let mut k: usize = 0;
            while k < to.len()
                invariant
                    k <= to.len(),
                    r@ == before + to@.take(k as int),
                decreases to.len() - k,
            {
                r.push(to[k]);
                proof {
                    assert(to@.take(k as int + 1) == to@.take(k as int).push(to@[k as int]));
                }
                k += 1;
            }
            proof {
                assert(to@.take(to@.len() as int) == to@);
                let tail = replace_all(s@.subrange(i + m, n as int), from@, to@);
                assert((before + to@) + tail == before + (to@ + tail));
            }
            i += m;
        } else {
            r.push(s[i]);
            proof {
                if i + m <= n {
                    assert(rest.subrange(0, m as int) == s@.subrange(i as int, i + m));
                }
                assert(!occurs_at(rest, from@, 0));
                assert(rest.drop_first() == s@.subrange(i + 1, n as int));
                let tail = replace_all(s@.subrange(i + 1, n as int), from@, to@);
                assert(rest[0] == s@[i as int]);
                assert(before.push(s@[i as int]) + tail == before + (seq![rest[0]] + tail));
            }
            i += 1;
        }
    }
    proof {
        assert(s@.subrange(n as int, n as int).len() == 0);
        assert(r@ + Seq::<char>::empty() == r@);
    }
    r
}

/// The decimal digit for `d`, which is below ten.
pub open spec fn digit_char(d: nat) -> char {
    if d == 0 {
        '0'
    } else if d == 1 {
        '1'
    } else if d == 2 {
        '2'
    } else if d == 3 {
        '3'
    } else if d == 4 {
        '4'
    } else if d == 5 {
        '5'
    } else if d == 6 {
        '6'
    } else if d == 7 {
        '7'
    } else if d == 8 {
        '8'
    } else {
        '9'
    }
}

/// The decimal numeral of `n`, without leading zeros.
pub open spec fn decimal(n: nat) -> Seq<char>
    decreases n,
{
    if n < 10 {
        seq![digit_char(n)]
    } else {
        decimal(n / 10).push(digit_char(n % 10))
    }
}

/// The decimal digit for `d`.
fn digit(d: usize) -> (c: char)
    requires
        d < 10,
    ensures
        c == digit_char(d as nat),
{
    if d == 0 {
        '0'
    } else if d == 1 {
        '1'
    } else if d == 2 {
        '2'
    } else if d == 3 {
        '3'
    } else if d == 4 {
        '4'
    } else if d == 5 {
        '5'
    } else if d == 6 {
        '6'
    } else if d == 7 {
        '7'
    } else if d == 8 {
        '8'
    } else {
        '9'
    }
}

/// The decimal numeral of `n`.
pub fn decimal_chars(n: usize) -> (r: Vec<char>)
    ensures
        r@ == decimal(n as nat),
    decreases n,
{
    if n < 10 {
        let mut r: Vec<char> = Vec::new();
        r.push(digit(n));
        r
    } else {
        let mut r = decimal_chars(n / 10);
        r.push(digit(n % 10));
        r
    }
}

/// The views of a sequence of character vectors.
pub open spec fn seqs_of(v: Seq<Vec<char>>) -> Seq<Seq<char>> {
    Seq::new(v.len(), |i: int| v[i]@)
}

/// The views of a sequence of strings.
pub open spec fn texts_of(v: Seq<String>) -> Seq<Seq<char>> {
    Seq::new(v.len(), |i: int| v[i]@)
}

/// The fields of `s`: the text is cut at every occurrence of `separator`,
/// and the separators are left out. A text without separator is one field.
pub open spec fn split(s: Seq<char>, separator: char) -> Seq<Seq<char>>
    decreases s.len(),
{
    if s.len() == 0 {
        seq![Seq::<char>::empty()]
    } else {
        let fields = split(s.drop_last(), separator);
        if s.last() == separator {
            fields.push(Seq::<char>::empty())
        } else {
            fields.drop_last().push(fields.last().push(s.last()))
        }
    }
}

/// How often `c` occurs in `s`.
pub open spec fn occurrences(s: Seq<char>, c: char) -> nat
    decreases s.len(),
{
    if s.len() == 0 {
        0
    } else if s.last() == c {
        occurrences(s.drop_last(), c) + 1
    } else {
        occurrences(s.drop_last(), c)
    }
}

/// There is one more field than there are separators.
pub proof fn lemma_split_count(s: Seq<char>, separator: char)
    ensures
        split(s, separator).len() == occurrences(s, separator) + 1,
    decreases s.len(),
{
    if s.len() > 0 {
        lemma_split_count(s.drop_last(), separator);
    }
}

/// A text without separator is one field.
pub proof fn lemma_split_without_separator(s: Seq<char>, separator: char)
    requires
        forall|i: int| 0 <= i < s.len() ==> s[i] != separator,
    ensures
        split(s, separator) == seq![s],
    decreases s.len(),
{
    if s.len() > 0 {
        let init = s.drop_last();
        lemma_split_without_separator(init, separator);
        assert(seq![init].drop_last().push(seq![init].last().push(s.last())) == seq![s]) by {
            assert(init.push(s.last()) == s);
        }
    } else {
        assert(s == Seq::<char>::empty());
    }
}

/// What follows the last separator is the last field, and the fields
/// before it are those of what precedes that separator.
pub proof fn lemma_split_at_last_separator(s: Seq<char>, separator: char, at: int)
    requires
        0 <= at < s.len(),
        s[at] == separator,
        forall|i: int| at < i < s.len() ==> s[i] != separator,
    ensures
        split(s, separator) == split(s.take(at), separator).push(s.skip(at + 1)),
    decreases s.len() - at,
{
    let init = s.drop_last();
    if at == s.len() - 1 {
        assert(s.skip(at + 1) == Seq::<char>::empty());
    } else {
        lemma_split_at_last_separator(init, separator, at);
        assert(init.take(at) == s.take(at));
        assert(init.skip(at + 1).push(s.last()) == s.skip(at + 1));
        let fields = split(init, separator);
    }
}

/// A text with one separator has two fields: what precedes the separator,
/// and what follows it.
pub proof fn lemma_split_at_only_separator(s: Seq<char>, separator: char, at: int)
    requires
        0 <= at < s.len(),
        s[at] == separator,
        forall|i: int| 0 <= i < s.len() && i != at ==> s[i] != separator,
    ensures
        split(s, separator) == seq![s.take(at), s.skip(at + 1)],
{
    lemma_split_at_last_separator(s, separator, at);
    lemma_split_without_separator(s.take(at), separator);
}

/// The fields of two texts with a separator between them are the fields of
/// the first followed by the fields of the second.
pub proof fn lemma_split_joined(a: Seq<char>, b: Seq<char>, separator: char)
    ensures
        split(a + seq![separator] + b, separator) == split(a, separator) + split(b, separator),
    decreases b.len(),
{
    let joined = a + seq![separator] + b;
    lemma_split_count(b, separator);
    if b.len() == 0 {
        assert(joined.drop_last() == a);
    } else {
        let shorter = b.drop_last();
        lemma_split_joined(a, shorter, separator);
        lemma_split_count(shorter, separator);
        assert(joined.drop_last() == a + seq![separator] + shorter);
    }
}

/// Splits `s` at every occurrence of `separator`.
pub fn split_chars(s: &Vec<char>, separator: char) -> (r: Vec<Vec<char>>)
    ensures
        seqs_of(r@) == split(s@, separator),
        r@.len() >= 1,
{
    let n: usize = s.len();
    let mut fields: Vec<Vec<char>> = Vec::new();
    let mut current: Vec<char> = Vec::new();
    let mut i: usize = 0;
    while i < n
        invariant
            i <= n,
            n == s.len(),
            split(s@.take(i as int), separator) == seqs_of(fields@).push(current@),
        decreases n - i,
    {
        let c: char = s[i];
        proof {
            let next = s@.take(i as int + 1);
            assert(next.drop_last() == s@.take(i as int));
        }
        if c == separator {
            fields.push(current);
            current = Vec::new();
        } else {
            current.push(c);
        }
        i += 1;
    }
    proof {
        assert(s@.take(n as int) == s@);
    }
    fields.push(current);
    fields
}

/// The first `len` characters of `v`.
fn prefix_chars(v: &Vec<char>, len: usize) -> (r: Vec<char>)
    requires
        len <= v@.len(),
    ensures
        r@ == v@.take(len as int),
{
    let mut r: Vec<char> = Vec::new();
    let mut i: usize = 0;
    while i < len
        invariant
            i <= len <= v.len(),
            r@ == v@.take(i as int),
        decreases len - i,
    {
        r.push(v[i]);
        i += 1;
    }
    r
}

/// `s` without one trailing carriage return, if it ends in one.
pub open spec fn strip_carriage_return(s: Seq<char>) -> Seq<char> {
    if s.len() > 0 && s.last() == '\r' {
        s.drop_last()
    } else {
        s
    }
}

/// The lines of `s`. A line ends at a line feed; a carriage return directly
/// before that line feed belongs to the line ending. What follows the last
/// line feed is a line of its own unless it is empty.
pub open spec fn lines(s: Seq<char>) -> Seq<Seq<char>> {
    let segments = split(s, '\n');
    let ended = Seq::new(
        (segments.len() - 1) as nat,
        |i: int| strip_carriage_return(segments[i]),
    );
    if segments.last().len() == 0 {
        ended
    } else {
        ended.push(segments.last())
    }
}

/// Splits `s` into its lines.
pub fn lines_of(s: &Vec<char>) -> (r: Vec<Vec<char>>)
    ensures
        seqs_of(r@) == lines(s@),
{
    let segments = split_chars(s, '\n');
    let count: usize = segments.len();
    let ghost parts = split(s@, '\n');
    let mut r: Vec<Vec<char>> = Vec::new();
    let mut i: usize = 0;
    while i + 1 < count
        invariant
            i + 1 <= count,
            count == segments.len(),
            count >= 1,
            seqs_of(segments@) == parts,
            seqs_of(r@) == Seq::new(i as nat, |k: int| strip_carriage_return(parts[k])),
        decreases count - i,
    {
        let segment = &segments[i];
        let ghost before = seqs_of(r@);
        let len: usize = segment.len();
        let line = if len > 0 && segment[len - 1] == '\r' {
            prefix_chars(segment, len - 1)
        } else {
            prefix_chars(segment, len)
        };
        proof {
            assert(segment@.take(len as int) == segment@);
        }
        r.push(line);
        proof {
            assert(seqs_of(r@) == before.push(line@));
        }
        i += 1;
    }
    let last = &segments[count - 1];
    if last.len() > 0 {
        let line = prefix_chars(last, last.len());
        proof {
            assert(last@.take(last@.len() as int) == last@);
        }
        r.push(line);
    }
    r
}

} // verus!
