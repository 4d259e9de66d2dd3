//! Character-level text operations.
//!
//! Text is modelled as `Seq<char>`, the view of `str` and `String`. The
//! executable functions work on `Vec<char>` and slices of `char`, so that
//! every index counts characters, never bytes.

use vstd::prelude::*;

verus! {

/// The characters with the Unicode property `White_Space`.
pub open spec fn is_whitespace(c: char) -> bool {
    let n = c as u32;
    ||| 0x09 <= n <= 0x0D
    ||| n == 0x20
    ||| n == 0x85
    ||| n == 0xA0
    ||| n == 0x1680
    ||| 0x2000 <= n <= 0x200A
    ||| n == 0x2028
    ||| n == 0x2029
    ||| n == 0x202F
    ||| n == 0x205F
    ||| n == 0x3000
}

/// `s` without its leading whitespace.
pub open spec fn trim_start(s: Seq<char>) -> Seq<char>
    decreases s.len(),
{
    if s.len() > 0 && is_whitespace(s[0]) {
        trim_start(s.drop_first())
    } else {
        s
    }
}

/// `s` without its trailing whitespace.
pub open spec fn trim_end(s: Seq<char>) -> Seq<char>
    decreases s.len(),
{
    if s.len() > 0 && is_whitespace(s.last()) {
        trim_end(s.drop_last())
    } else {
        s
    }
}

/// `s` without leading and trailing whitespace.
pub open spec fn trim(s: Seq<char>) -> Seq<char> {
    trim_end(trim_start(s))
}

/// `count` times the character `fill`; nothing for a count below one.
pub open spec fn filling(fill: char, count: int) -> Seq<char> {
    Seq::new(
        if count > 0 {
            count as nat
        } else {
            0
        },
        |i: int| fill,
    )
}

/// Whether `s` neither starts nor ends with whitespace.
pub open spec fn is_trimmed(s: Seq<char>) -> bool {
    s.len() == 0 || (!is_whitespace(s[0]) && !is_whitespace(s.last()))
}

/// Spaces behind a text that is trimmed are trimmed away, and nothing else.
pub proof fn lemma_trim_drops_spaces(s: Seq<char>, count: int)
    requires
        is_trimmed(s),
    ensures
        trim(s + filling(' ', count)) == s,
{
    let padded = s + filling(' ', count);
    if s.len() == 0 {
        lemma_trim_start_skip(padded, padded.len() as int);
    } else {
        lemma_trim_end_take(padded, s.len() as int);
    }
}

/// The characters of a string, in order.
pub fn to_chars(s: &str) -> (res: Vec<char>)
    ensures
        res@ == s@,
{
    let mut out: Vec<char> = Vec::new();
    for c in it: s.chars()
        invariant
            out@ == it.seq().take(it.index() as int),
            it.seq() == s@,
    {
        out.push(c);
    }
    out
}

/// Appends a character with `String::push`. The contract claims that the
/// string then holds the characters it held, followed by the new one.
#[verifier::external_body]
fn push_char(text: &mut String, c: char)
    ensures
        final(text)@ == old(text)@.push(c),
{
    text.push(c)
}

/// The string of the given characters.
pub fn from_chars(chars: &[char]) -> (res: String)
    ensures
        res@ == chars@,
{
    let mut text = String::new();
    let mut i: usize = 0;
    while i < chars.len()
        invariant
            i <= chars.len(),
            text@ == chars@.take(i as int),
        decreases chars.len() - i,
    {
        push_char(&mut text, chars[i]);
        proof {
            assert(chars@.take(i + 1) =~= chars@.take(i as int).push(chars@[i as int]));
        }
        i += 1;
    }
    proof {
        assert(chars@.take(chars.len() as int) =~= chars@);
    }
    text
}

/// Whether `c` is a whitespace character.
pub fn is_whitespace_char(c: char) -> (res: bool)
    ensures
        res == is_whitespace(c),
{
    let n: u32 = c as u32;
    (0x09 <= n && n <= 0x0D) || n == 0x20 || n == 0x85 || n == 0xA0 || n == 0x1680 || (0x2000 <= n
        && n <= 0x200A) || n == 0x2028 || n == 0x2029 || n == 0x202F || n == 0x205F || n == 0x3000
}

/// A copy of the characters of `v` from index `from` up to `to`.
pub fn slice_to_vec(v: &[char], from: usize, to: usize) -> (res: Vec<char>)
    requires
        from <= to <= v.len(),
    ensures
        res@ == v@.subrange(from as int, to as int),
{
    let mut out: Vec<char> = Vec::new();
    let mut i: usize = from;
    while i < to
        invariant
            from <= i <= to <= v.len(),
            out@ == v@.subrange(from as int, i as int),
        decreases to - i,
    {
        out.push(v[i]);
        i += 1;
    }
    out
}

/// Skipping `k` leading whitespace characters does not change what
/// `trim_start` returns.
pub proof fn lemma_trim_start_skip(s: Seq<char>, k: int)
    requires
        0 <= k <= s.len(),
        forall|i: int| 0 <= i < k ==> is_whitespace(s[i]),
    ensures
        trim_start(s) == trim_start(s.skip(k)),
    decreases k,
{
    if k > 0 {
        assert(s.drop_first().skip(k - 1) == s.skip(k));
        lemma_trim_start_skip(s.drop_first(), k - 1);
    } else {
        assert(s.skip(0) == s);
    }
}

/// Dropping trailing whitespace characters does not change what
/// `trim_end` returns.
pub proof fn lemma_trim_end_take(s: Seq<char>, k: int)
    requires
        0 <= k <= s.len(),
        forall|i: int| k <= i < s.len() ==> is_whitespace(s[i]),
    ensures
        trim_end(s) == trim_end(s.take(k)),
    decreases s.len() - k,
{
    if k < s.len() {
        assert(s.drop_last().take(k) == s.take(k));
        lemma_trim_end_take(s.drop_last(), k);
    } else {
        assert(s.take(k) == s);
    }
}

/// The characters of `v` without leading and trailing whitespace.
pub fn trim_chars(v: &[char]) -> (res: Vec<char>)
    ensures
        res@ == trim(v@),
{
    let n = v.len();
    let mut start: usize = 0;
    while start < n && is_whitespace_char(v[start])
        invariant
            start <= n == v.len(),
            forall|i: int| 0 <= i < start ==> is_whitespace(v@[i]),
        decreases n - start,
    {
        start += 1;
    }
    let mut end: usize = n;
    while end > start && is_whitespace_char(v[end - 1])
        invariant
            start <= end <= n == v.len(),
            forall|i: int| end <= i < n ==> is_whitespace(v@[i]),
        decreases end,
    {
        end -= 1;
    }
    proof {
        let s = v@;
        lemma_trim_start_skip(s, start as int);
        let t = s.skip(start as int);
        assert(forall|i: int| end - start <= i < t.len() ==> is_whitespace(t[i]));
        lemma_trim_end_take(t, end - start);
        assert(t.take(end - start) == s.subrange(start as int, end as int));
    }
    slice_to_vec(v, start, end)
}

/// The pieces of `s` between occurrences of `sep`, in order. There is one
/// piece more than there are separators, so the result is never empty.
pub open spec fn split(s: Seq<char>, sep: char) -> Seq<Seq<char>>
    decreases s.len(),
{
    if s.len() == 0 {
        seq![Seq::empty()]
    } else {
        let before = split(s.drop_last(), sep);
        if s.last() == sep {
            before.push(Seq::empty())
        } else {
            before.drop_last().push(before.last().push(s.last()))
        }
    }
}

/// `split` returns at least one piece.
pub proof fn lemma_split_nonempty(s: Seq<char>, sep: char)
    ensures
        split(s, sep).len() >= 1,
    decreases s.len(),
{
    if s.len() > 0 {
        lemma_split_nonempty(s.drop_last(), sep);
    }
}

/// The lines of `s`: its pieces between line feeds, without the empty piece
/// after a final line feed. A carriage return before a line feed stays in
/// the line; `trim` removes it.
pub open spec fn lines(s: Seq<char>) -> Seq<Seq<char>> {
    let pieces = split(s, '\n');
    if pieces.last().len() == 0 {
        pieces.drop_last()
    } else {
        pieces
    }
}

/// Each piece of `pieces` without leading and trailing whitespace.
pub open spec fn trim_all(pieces: Seq<Seq<char>>) -> Seq<Seq<char>> {
    Seq::new(pieces.len(), |i: int| trim(pieces[i]))
}

/// The texts that a sequence of character vectors holds.
pub open spec fn views(v: Seq<Vec<char>>) -> Seq<Seq<char>> {
    Seq::new(v.len(), |i: int| v[i]@)
}

/// The pieces of `v` between occurrences of `sep`.
pub fn split_chars(v: &[char], sep: char) -> (res: Vec<Vec<char>>)
    ensures
        views(res@) == split(v@, sep),
{
    let mut out: Vec<Vec<char>> = Vec::new();
    let mut current: Vec<char> = Vec::new();
    let mut i: usize = 0;
    while i < v.len()
        invariant
            i <= v.len(),
            views(out@).push(current@) == split(v@.take(i as int), sep),
        decreases v.len() - i,
    {
        let c = v[i];
        proof {
            let next = v@.take(i + 1);
            assert(next.drop_last() =~= v@.take(i as int));
        }
        if c == sep {
            out.push(current);
            current = Vec::new();
        } else {
            current.push(c);
        }
        i += 1;
    }
    proof {
        assert(v@.take(v.len() as int) =~= v@);
    }
    out.push(current);
    out
}

/// The lines of `v`.
pub fn lines_chars(v: &[char]) -> (res: Vec<Vec<char>>)
    ensures
        views(res@) == lines(v@),
{
    let mut pieces = split_chars(v, '\n');
    proof {
        lemma_split_nonempty(v@, '\n');
    }
    let last = pieces.len() - 1;
    if pieces[last].len() == 0 {
        pieces.pop();
    }
    pieces
}

/// Whether `needle` stands in `haystack` at index `i`.
pub open spec fn occurs_at(haystack: Seq<char>, needle: Seq<char>, i: int) -> bool {
    &&& 0 <= i
    &&& i + needle.len() <= haystack.len()
    &&& haystack.subrange(i, i + needle.len()) == needle
}

/// Whether `i` is the least index at which `needle` stands in `haystack`.
pub open spec fn is_first_occurrence(haystack: Seq<char>, needle: Seq<char>, i: int) -> bool {
    &&& occurs_at(haystack, needle, i)
    &&& forall|j: int| 0 <= j < i ==> !occurs_at(haystack, needle, j)
}

/// The index of the first occurrence of `needle` in `haystack`, if there
/// is one.
#[verifier::opaque]
pub open spec fn first_occurrence(haystack: Seq<char>, needle: Seq<char>) -> Option<int> {
    if exists|i: int| is_first_occurrence(haystack, needle, i) {
        Some(choose|i: int| is_first_occurrence(haystack, needle, i))
    } else {
        None
    }
}

/// A least index of occurrence is the first occurrence.
pub proof fn lemma_first_occurrence_is(haystack: Seq<char>, needle: Seq<char>, i: int)
    requires
        is_first_occurrence(haystack, needle, i),
    ensures
        first_occurrence(haystack, needle) == Some(i),
{
    reveal(first_occurrence);
    let k = choose|k: int| is_first_occurrence(haystack, needle, k);
    assert(is_first_occurrence(haystack, needle, k));
    if k < i {
        assert(!occurs_at(haystack, needle, k));
    }
    if i < k {
        assert(!occurs_at(haystack, needle, i));
    }
}

/// The first occurrence is a least index of occurrence, and without a
/// first occurrence there is no occurrence.
pub proof fn lemma_first_occurrence_means(haystack: Seq<char>, needle: Seq<char>)
    ensures
        match first_occurrence(haystack, needle) {
            Some(i) => is_first_occurrence(haystack, needle, i),
            None => forall|j: int| !occurs_at(haystack, needle, j),
        },
{
    reveal(first_occurrence);
    if first_occurrence(haystack, needle) is None {
        assert forall|j: int| !occurs_at(haystack, needle, j) by {
            if occurs_at(haystack, needle, j) {
                lemma_least_occurrence(haystack, needle, j);
            }
        }
    }
}

/// Where `needle` stands in `haystack` at some index, there is a least
/// such index.
pub proof fn lemma_least_occurrence(haystack: Seq<char>, needle: Seq<char>, j: int)
    requires
        occurs_at(haystack, needle, j),
    ensures
        exists|i: int| is_first_occurrence(haystack, needle, i),
    decreases j,
{
    if exists|k: int| 0 <= k < j && occurs_at(haystack, needle, k) {
        let k = choose|k: int| 0 <= k < j && occurs_at(haystack, needle, k);
        lemma_least_occurrence(haystack, needle, k);
    } else {
        assert(is_first_occurrence(haystack, needle, j));
    }
}

/// Where `needle` stands nowhere in `haystack`, there is no first
/// occurrence.
pub proof fn lemma_first_occurrence_none(haystack: Seq<char>, needle: Seq<char>)
    requires
        forall|j: int| !occurs_at(haystack, needle, j),
    ensures
        first_occurrence(haystack, needle) is None,
{
    reveal(first_occurrence);
}

/// Whether `needle` stands in `haystack` at index `i`.
pub fn matches_at(haystack: &[char], needle: &[char], i: usize) -> (res: bool)
    requires
        i + needle.len() <= haystack.len(),
    ensures
        res == occurs_at(haystack@, needle@, i as int),
{
    let mut k: usize = 0;
    while k < needle.len()
        invariant
            k <= needle.len(),
            i + needle.len() <= haystack.len(),
            forall|j: int| 0 <= j < k ==> haystack@[i + j] == needle@[j],
        decreases needle.len() - k,
    {
        if haystack[i + k] != needle[k] {
            proof {
                let window = haystack@.subrange(i as int, i + needle.len());
                assert(window[k as int] != needle@[k as int]);
            }
            return false;
        }
        k += 1;
    }
    proof {
        assert(haystack@.subrange(i as int, i + needle.len()) =~= needle@);
    }
    true
}

/// The index of the first occurrence of `needle` in `haystack`, counted in
/// characters.
pub fn find_chars(haystack: &[char], needle: &[char]) -> (res: Option<usize>)
    ensures
        match res {
            Some(i) => first_occurrence(haystack@, needle@) == Some(i as int),
            None => first_occurrence(haystack@, needle@) is None,
        },
        res matches Some(i) ==> is_first_occurrence(haystack@, needle@, i as int),
        res is None ==> forall|j: int| !occurs_at(haystack@, needle@, j),
{
    if needle.len() > haystack.len() {
        proof {
            lemma_first_occurrence_none(haystack@, needle@);
        }
        return None;
    }
    let last = haystack.len() - needle.len();
    let mut i: usize = 0;
    loop
        invariant
            needle.len() <= haystack.len(),
            last == haystack.len() - needle.len(),
            i <= last,
            forall|j: int| 0 <= j < i ==> !occurs_at(haystack@, needle@, j),
        decreases last - i,
    {
        if matches_at(haystack, needle, i) {
            proof {
                lemma_first_occurrence_is(haystack@, needle@, i as int);
            }
            return Some(i);
        }
        if i == last {
            proof {
                lemma_first_occurrence_none(haystack@, needle@);
            }
            return None;
        }
        i += 1;
    }
}

/// Whether two strings hold the same characters.
pub fn same_chars(a: &[char], b: &[char]) -> (res: bool)
    ensures
        res == (a@ == b@),
{
    if a.len() != b.len() {
        return false;
    }
    let res = matches_at(a, b, 0);
    proof {
        assert(a@.subrange(0, a@.len() as int) =~= a@);
    }
    res
}

} // verus!
