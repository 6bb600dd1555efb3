//! Version strings made comparable.
//!
//! A version such as `v1.10.0-beta+build` is turned into a text whose plain
//! lexicographic order is the order of versions: numbers are padded with
//! zeros, and a release sorts after its own pre-releases.

use crate::text::chars_of;
use vstd::prelude::*;

verus! {

/// Whether Unicode classes the character as numeric, as `char::is_numeric`
/// reports it.
pub uninterp spec fn char_is_numeric(c: char) -> bool;

/// `char::is_numeric` of the standard library: whether the character has one
/// of Unicode's general categories for numbers. Of the ASCII characters
/// those are the ten digits.
#[verifier::external_body]
fn is_numeric(c: char) -> (numeric: bool)
    ensures
        numeric == char_is_numeric(c),
        c <= '\u{7f}' ==> numeric == ('0' <= c <= '9'),
{
    c.is_numeric()
}

/// A version without a leading `v`.
pub open spec fn without_prefix(s: Seq<char>) -> Seq<char> {
    if s.len() > 0 && s[0] == 'v' {
        s.drop_first()
    } else {
        s
    }
}

/// The index just after the last line break of `s`; 0 if it has none.
pub open spec fn after_last_line_break(s: Seq<char>) -> int
    decreases s.len(),
{
    if s.len() == 0 {
        0
    } else if s.last() == '\n' {
        s.len() as int
    } else {
        after_last_line_break(s.drop_last())
    }
}

/// The index of the first `c` in `s` at or after `from`; the length of `s`
/// if there is none.
pub open spec fn first_from(s: Seq<char>, c: char, from: int) -> int
    decreases s.len() - from,
{
    if from < 0 || from >= s.len() {
        s.len() as int
    } else if s[from] == c {
        from
    } else {
        first_from(s, c, from + 1)
    }
}

/// Where the build metadata of a version starts: at the first `+` that no
/// line break follows. The length of `s` if there is no such `+`.
pub open spec fn metadata_start(s: Seq<char>) -> int {
    first_from(s, '+', after_last_line_break(s))
}

/// A version without its leading `v` and without its build metadata.
pub open spec fn core_version(s: Seq<char>) -> Seq<char> {
    let rest = without_prefix(s);
    rest.take(metadata_start(rest))
}

/// A character that parts two segments of a version.
pub open spec fn is_separator(c: char) -> bool {
    c == '-' || c == '.'
}

/// The number of characters before the first separator.
pub open spec fn run_length(s: Seq<char>) -> int
    decreases s.len(),
{
    if s.len() == 0 || is_separator(s[0]) {
        0
    } else {
        1 + run_length(s.drop_first())
    }
}

/// The segments of a version: its maximal runs of characters that are no
/// separators.
pub open spec fn segments(s: Seq<char>) -> Seq<Seq<char>>
    decreases s.len(),
{
    if s.len() == 0 {
        Seq::empty()
    } else if is_separator(s[0]) {
        segments(s.drop_first())
    } else {
        let n = run_length(s);
        if 0 < n <= s.len() {
            seq![s.take(n)] + segments(s.skip(n))
        } else {
            Seq::empty()
        }
    }
}

/// The character is numeric: among the ASCII characters the ten digits are,
/// and beyond them what Unicode classes as numeric.
pub open spec fn is_numeric_char(c: char) -> bool {
    if c <= '\u{7f}' {
        '0' <= c <= '9'
    } else {
        char_is_numeric(c)
    }
}

/// Every character of the segment is numeric.
pub open spec fn all_numeric(segment: Seq<char>) -> bool {
    forall|i: int| 0 <= i < segment.len() ==> is_numeric_char(#[trigger] segment[i])
}

/// `n` zeros.
pub open spec fn zeros(n: nat) -> Seq<char> {
    Seq::new(n, |i: int| '0')
}

/// A numeric segment padded with zeros on the left to five characters; any
/// other segment as it is.
pub open spec fn padded(segment: Seq<char>) -> Seq<char> {
    if all_numeric(segment) && segment.len() < 5 {
        zeros((5 - segment.len()) as nat) + segment
    } else {
        segment
    }
}

/// Segments, each padded, joined by `-`.
pub open spec fn joined(parts: Seq<Seq<char>>) -> Seq<char>
    decreases parts.len(),
{
    if parts.len() == 0 {
        Seq::empty()
    } else if parts.len() == 1 {
        padded(parts[0])
    } else {
        joined(parts.drop_last()) + seq!['-'] + padded(parts.last())
    }
}

/// The segments that are compared: those of the version, and after exactly
/// three of them a `~`, which sorts after every pre-release tag.
pub open spec fn compared_segments(s: Seq<char>) -> Seq<Seq<char>> {
    let parts = segments(core_version(s));
    if parts.len() == 3 {
        parts.push(seq!['~'])
    } else {
        parts
    }
}

/// The comparable form of a version.
pub open spec fn padded_version(s: Seq<char>) -> Seq<char> {
    joined(compared_segments(s))
}

/// The comparable form of what may be a version: that of the empty text
/// where there is none.
pub open spec fn padded_version_of(s: Option<Seq<char>>) -> Seq<char> {
    match s {
        Some(s) => padded_version(s),
        None => Seq::empty(),
    }
}

proof fn lemma_after_last_line_break(s: Seq<char>, k: int)
    requires
        0 <= k <= s.len(),
        k > 0 ==> s[k - 1] == '\n',
        forall|j: int| k <= j < s.len() ==> s[j] != '\n',
    ensures
        after_last_line_break(s) == k,
    decreases s.len(),
{
    if s.len() > 0 {
        if k < s.len() {
            lemma_after_last_line_break(s.drop_last(), k);
        }
    }
}

/// The first `c` at or after `from` is at `at`.
pub proof fn lemma_first_item(s: Seq<char>, c: char, from: int, at: int)
    requires
        0 <= from <= at <= s.len(),
        forall|j: int| from <= j < at ==> s[j] != c,
        at < s.len() ==> s[at] == c,
    ensures
        first_from(s, c, from) == at,
    decreases at - from,
{
    if from < at {
        lemma_first_item(s, c, from + 1, at);
    }
}

/// Where the core of a version starts and ends among the characters.
fn core_bounds(chars: &Vec<char>) -> (bounds: (usize, usize))
    ensures
        bounds.0 <= bounds.1 <= chars.len(),
        chars@.subrange(bounds.0 as int, bounds.1 as int) == core_version(chars@),
{
    let n = chars.len();
    let start: usize = if n > 0 && chars[0] == 'v' {
        1
    } else {
        0
    };
    let ghost rest = without_prefix(chars@);
    assert(rest =~= chars@.skip(start as int));
    // the last line break
    let mut k: usize = n;
    while k > start && chars[k - 1] != '\n'
        invariant
            start <= k <= n,
            n == chars.len(),
            forall|j: int| k <= j < n ==> chars@[j] != '\n',
        decreases k,
    {
        k -= 1;
    }
    proof {
        lemma_after_last_line_break(rest, k - start);
    }
    let mut p: usize = k;
    while p < n && chars[p] != '+'
        invariant
            k <= p <= n,
            n == chars.len(),
            forall|j: int| k <= j < p ==> chars@[j] != '+',
        decreases n - p,
    {
        p += 1;
    }
    proof {
        lemma_first_item(rest, '+', k - start, p - start);
        assert(chars@.subrange(start as int, p as int) =~= rest.take(p - start));
    }
    (start, p)
}

/// The texts that a list of character vectors holds.
pub open spec fn texts(parts: Seq<Vec<char>>) -> Seq<Seq<char>> {
    Seq::new(parts.len(), |i: int| parts[i]@)
}

proof fn lemma_run_length(s: Seq<char>, k: int)
    requires
        0 <= k <= s.len(),
        forall|j: int| 0 <= j < k ==> !is_separator(s[j]),
        k < s.len() ==> is_separator(s[k]),
    ensures
        run_length(s) == k,
    decreases k,
{
    if k > 0 {
        assert(!is_separator(s[0]));
        let rest = s.drop_first();
        assert forall|j: int| 0 <= j < k - 1 implies !is_separator(rest[j]) by {
            assert(rest[j] == s[j + 1]);
        }
        lemma_run_length(rest, k - 1);
    }
}

/// The segments of `chars[start..end]`.
fn split_segments(chars: &Vec<char>, start: usize, end: usize) -> (parts: Vec<Vec<char>>)
    requires
        start <= end <= chars.len(),
    ensures
        texts(parts@) == segments(chars@.subrange(start as int, end as int)),
{
    let ghost s = chars@.subrange(start as int, end as int);
    let mut parts: Vec<Vec<char>> = Vec::new();
    let mut i: usize = start;
    assert(s.skip(0) =~= s);
    while i < end
        invariant
            start <= i <= end <= chars.len(),
            s == chars@.subrange(start as int, end as int),
            segments(s) =~= texts(parts@) + segments(s.skip(i - start)),
        decreases end - i,
    {
        let ghost tail = s.skip(i - start);
        let c = chars[i];
        assert(tail[0] == c);
        if c == '-' || c == '.' {
            assert(tail.drop_first() =~= s.skip(i + 1 - start));
            i += 1;
        } else {
            let mut segment: Vec<char> = Vec::new();
            let mut j: usize = i;
            while j < end && chars[j] != '-' && chars[j] != '.'
                invariant
                    i <= j <= end <= chars.len(),
                    start <= i,
                    s == chars@.subrange(start as int, end as int),
                    tail == s.skip(i - start),
                    segment@ == chars@.subrange(i as int, j as int),
                    forall|k: int| i <= k < j ==> !is_separator(chars@[k]),
                decreases end - j,
            {
                segment.push(chars[j]);
                assert(segment@ =~= chars@.subrange(i as int, j + 1));
                j += 1;
            }
            proof {
                lemma_run_length(tail, j - i);
                assert(tail.take(j - i) =~= segment@);
                assert(tail.skip(j - i) =~= s.skip(j - start));
                let before = texts(parts@);
                assert(segments(tail) == seq![tail.take(j - i)] + segments(tail.skip(j - i)));
                assert(before.push(segment@) + segments(s.skip(j - start)) =~= before + segments(tail));
            }
            let ghost before = texts(parts@);
            parts.push(segment);
            assert(texts(parts@) =~= before.push(segment@));
            i = j;
        }
    }
    assert(s.skip(end - start) =~= Seq::<char>::empty());
    assert(segments(s) =~= texts(parts@));
    parts
}

/// Appends the padded form of a segment.
fn push_padded(out: &mut Vec<char>, segment: &Vec<char>)
    ensures
        final(out)@ == old(out)@ + padded(segment@),
{
    let n = segment.len();
    let mut numeric = true;
    let mut i: usize = 0;
    while i < n && numeric
        invariant
            i <= n,
            n == segment.len(),
            numeric ==> forall|j: int| 0 <= j < i ==> is_numeric_char(#[trigger] segment@[j]),
            !numeric ==> !all_numeric(segment@),
        decreases n - i + if numeric { 1int } else { 0int },
    {
        if !is_numeric(segment[i]) {
            numeric = false;
        } else {
            i += 1;
        }
    }
    let ghost base = out@;
    if numeric && n < 5 {
        let mut z: usize = n;
        while z < 5
            invariant
                n <= z <= 5,
                out@ =~= base + zeros((z - n) as nat),
            decreases 5 - z,
        {
            out.push('0');
            z += 1;
        }
    }
    let ghost mid = out@;
    let mut k: usize = 0;
    while k < n
        invariant
            k <= n,
            n == segment.len(),
            out@ =~= mid + segment@.take(k as int),
        decreases n - k,
    {
        out.push(segment[k]);
        k += 1;
    }
    assert(segment@.take(n as int) =~= segment@);
    assert(out@ =~= base + padded(segment@));
}

/// The comparable form of a version, as characters.
pub fn padded_version_chars(version: &str) -> (padded: Vec<char>)
    ensures
        padded@ == padded_version(version@),
{
    let chars = chars_of(version);
    let bounds = core_bounds(&chars);
    let mut parts = split_segments(&chars, bounds.0, bounds.1);
    if parts.len() == 3 {
        let mut sentinel: Vec<char> = Vec::new();
        sentinel.push('~');
        let ghost before = texts(parts@);
        parts.push(sentinel);
        assert(texts(parts@) =~= before.push(seq!['~']));
    }
    let ghost all = texts(parts@);
    assert(all == compared_segments(version@));
    let mut out: Vec<char> = Vec::new();
    let mut i: usize = 0;
    while i < parts.len()
        invariant
            i <= parts.len(),
            all == texts(parts@),
            out@ == joined(all.take(i as int)),
        decreases parts.len() - i,
    {
        proof {
            assert(all.take(i + 1).drop_last() =~= all.take(i as int));
            assert(all.take(i + 1).last() == parts@[i as int]@);
        }
        if i > 0 {
            out.push('-');
        }
        push_padded(&mut out, &parts[i]);
        proof {
            if i == 0 {
                assert(all.take(1)[0] == parts@[0]@);
                assert(out@ =~= padded(parts@[0]@));
            }
        }
        i += 1;
    }
    assert(all.take(parts.len() as int) =~= all);
    out
}

} // verus!
