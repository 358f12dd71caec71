//! Character-level helpers shared by the parser, the value transitions and
//! the search: case folding, ordering, and splitting of text.

use vstd::prelude::*;

verus! {

/// `String::push` appends one character to the end of the string.
pub assume_specification[ String::push ](s: &mut String, c: char)
    ensures
        final(s)@ == old(s)@.push(c),
;

/// The text that `str::to_lowercase` makes of a text: each character
/// replaced by its lower-case form as Unicode defines it.
pub uninterp spec fn lowercase(text: Seq<char>) -> Seq<char>;

/// `str::to_lowercase` gives the lower-case form of the text.
pub assume_specification[ str::to_lowercase ](s: &str) -> (r: String)
    ensures
        r@ == lowercase(s@),
;

/// The lower-case form of an ASCII letter; every other character is itself.
pub open spec fn lower(c: char) -> char {
    if 'A' <= c && c <= 'Z' {
        ((c as u32) + 32) as char
    } else {
        c
    }
}

/// A text with each ASCII capital replaced by its lower-case letter.
pub open spec fn fold_case(s: Seq<char>) -> Seq<char> {
    Seq::new(s.len(), |i: int| lower(s[i]))
}

/// The views of a sequence of strings.
pub open spec fn texts(v: Seq<String>) -> Seq<Seq<char>> {
    Seq::new(v.len(), |i: int| v[i]@)
}

/// The lower-case form of an ASCII letter; every other character is itself.
pub fn to_lower(c: char) -> (r: char)
    ensures
        r == lower(c),
{
    if 'A' <= c && c <= 'Z' {
        ((c as u8) + 32) as char
    } else {
        c
    }
}

/// The characters of a string, in order.
pub fn chars_of(s: &str) -> (v: Vec<char>)
    ensures
        v@ == s@,
{
    let mut v: Vec<char> = Vec::new();
    for c in it: s.chars()
        invariant
            v@ == it.seq().take(it.index()),
            it.seq() == s@,
    {
        v.push(c);
    }
    v
}

/// The string made of the characters `chars[from..to]`.
pub fn string_of(chars: &Vec<char>, from: usize, to: usize) -> (s: String)
    requires
        from <= to <= chars.len(),
    ensures
        s@ == chars@.subrange(from as int, to as int),
{
    let mut s = String::new();
    let mut i: usize = from;
    while i < to
        invariant
            from <= i <= to <= chars.len(),
            s@ == chars@.subrange(from as int, i as int),
        decreases to - i,
    {
        s.push(chars[i]);
        i = i + 1;
    }
    s
}

/// Whether two texts hold the same characters.
pub fn same_text(a: &str, b: &str) -> (r: bool)
    ensures
        r == (a@ == b@),
{
    let x = chars_of(a);
    let y = chars_of(b);
    if x.len() != y.len() {
        return false;
    }
    let mut i: usize = 0;
    while i < x.len()
        invariant
            i <= x.len(),
            x.len() == y.len(),
            x@ == a@,
            y@ == b@,
            forall|j: int| 0 <= j < i ==> x@[j] == y@[j],
        decreases x.len() - i,
    {
        if x[i] != y[i] {
            return false;
        }
        i = i + 1;
    }
    assert(x@ =~= y@);
    true
}

/// Whether `text`, with its ASCII capitals folded, reads `word`.
pub fn reads_as(text: &Vec<char>, word: &str) -> (r: bool)
    ensures
        r == (fold_case(text@) == word@),
{
    let w = chars_of(word);
    if text.len() != w.len() {
        return false;
    }
    let mut i: usize = 0;
    while i < text.len()
        invariant
            i <= text.len(),
            text.len() == w.len(),
            w@ == word@,
            forall|j: int| 0 <= j < i ==> lower(text@[j]) == w@[j],
        decreases text.len() - i,
    {
        if to_lower(text[i]) != w[i] {
            assert(fold_case(text@)[i as int] != word@[i as int]);
            return false;
        }
        i = i + 1;
    }
    assert(fold_case(text@) =~= word@);
    true
}

/// Whether `prefix` stands at the start of `s`.
pub open spec fn starts_with(s: Seq<char>, prefix: Seq<char>) -> bool {
    prefix.len() <= s.len() && s.take(prefix.len() as int) == prefix
}

/// Whether `prefix` stands at the start of `s`.
pub fn begins_with(s: &Vec<char>, prefix: &Vec<char>) -> (r: bool)
    ensures
        r == starts_with(s@, prefix@),
{
    if prefix.len() > s.len() {
        return false;
    }
    let mut i: usize = 0;
    while i < prefix.len()
        invariant
            i <= prefix.len() <= s.len(),
            forall|j: int| 0 <= j < i ==> s@[j] == prefix@[j],
        decreases prefix.len() - i,
    {
        if s[i] != prefix[i] {
            assert(s@.take(prefix.len() as int)[i as int] != prefix@[i as int]);
            return false;
        }
        i = i + 1;
    }
    assert(s@.take(prefix.len() as int) =~= prefix@);
    true
}

/// The index of the first `c` in `s`, or `s.len()` where `s` holds none.
pub open spec fn first_index<A>(s: Seq<A>, c: A) -> int
    decreases s.len(),
{
    if s.len() == 0 || s[0] == c {
        0
    } else {
        1 + first_index(s.skip(1), c)
    }
}

/// The first occurrence lies within the sequence or at its end; nothing
/// before it is `c`, and it is `c` where it lies within.
pub proof fn lemma_first_index<A>(s: Seq<A>, c: A)
    ensures
        0 <= first_index(s, c) <= s.len(),
        forall|j: int| 0 <= j < first_index(s, c) ==> s[j] != c,
        first_index(s, c) < s.len() ==> s[first_index(s, c)] == c,
    decreases s.len(),
{
    if s.len() != 0 && s[0] != c {
        let rest = s.skip(1);
        lemma_first_index(rest, c);
        assert forall|j: int| 0 <= j < first_index(s, c) implies s[j] != c by {
            if j > 0 {
                assert(rest[j - 1] == s[j]);
            }
        }
    }
}

/// The first occurrence is where no earlier place holds `c` and this one does.
pub proof fn lemma_first_index_is<A>(s: Seq<A>, c: A, k: int)
    requires
        0 <= k <= s.len(),
        forall|j: int| 0 <= j < k ==> s[j] != c,
        k < s.len() ==> s[k] == c,
    ensures
        first_index(s, c) == k,
    decreases s.len(),
{
    if s.len() != 0 && s[0] != c {
        let rest = s.skip(1);
        assert forall|j: int| 0 <= j < k - 1 implies rest[j] != c by {
            assert(rest[j] == s[j + 1]);
        }
        lemma_first_index_is(rest, c, k - 1);
    }
}

/// The pieces of `s` between occurrences of `sep`: one more than there are
/// separators, so never none.
pub open spec fn split(s: Seq<char>, sep: char) -> Seq<Seq<char>>
    decreases s.len(),
{
    let i = first_index(s, sep);
    if 0 <= i < s.len() {
        seq![s.take(i)] + split(s.skip(i + 1), sep)
    } else {
        seq![s]
    }
}

/// A line without the carriage return that may end it.
pub open spec fn without_return(s: Seq<char>) -> Seq<char> {
    if s.len() > 0 && s.last() == '\r' {
        s.drop_last()
    } else {
        s
    }
}

/// The lines of a text. A line feed ends a line, and a carriage return just
/// before it belongs to the line ending. What follows the last line feed is a
/// line only if it is not empty, and keeps a carriage return at its end.
pub open spec fn lines(text: Seq<char>) -> Seq<Seq<char>> {
    let pieces = split(text, '\n');
    let ended = Seq::new((pieces.len() - 1) as nat, |k: int| without_return(pieces[k]));
    if pieces.last().len() == 0 {
        ended
    } else {
        ended.push(pieces.last())
    }
}

/// Where each piece of `split(chars, sep)` starts and ends in `chars`.
pub fn split_ranges(chars: &Vec<char>, sep: char) -> (ranges: Vec<(usize, usize)>)
    ensures
        ranges.len() == split(chars@, sep).len(),
        ranges.len() >= 1,
        forall|k: int|
            0 <= k < ranges.len() ==> (#[trigger] ranges[k]).0 <= ranges[k].1 <= chars.len()
                && chars@.subrange(ranges[k].0 as int, ranges[k].1 as int) == split(
                chars@,
                sep,
            )[k],
{
    let mut ranges: Vec<(usize, usize)> = Vec::new();
    let mut start: usize = 0;
    let mut i: usize = 0;
    let ghost whole = chars@;
    assert(whole.skip(0) =~= whole);
    while i < chars.len()
        invariant
            whole == chars@,
            start <= i <= chars.len(),
            forall|j: int| start <= j < i ==> whole[j] != sep,
            ranges.len() + split(whole.skip(start as int), sep).len() == split(whole, sep).len(),
            forall|k: int|
                0 <= k < split(whole.skip(start as int), sep).len() ==> split(
                    whole.skip(start as int),
                    sep,
                )[k] == #[trigger] split(whole, sep)[ranges.len() + k],
            forall|k: int|
                0 <= k < ranges.len() ==> (#[trigger] ranges[k]).0 <= ranges[k].1 <= chars.len()
                    && whole.subrange(ranges[k].0 as int, ranges[k].1 as int) == split(
                    whole,
                    sep,
                )[k],
        decreases chars.len() - i,
    {
        if chars[i] == sep {
            proof {
                let rest = whole.skip(start as int);
                assert forall|j: int| 0 <= j < i - start implies rest[j] != sep by {
                    assert(rest[j] == whole[start + j]);
                }
                lemma_first_index_is(rest, sep, i - start);
                assert(rest.take(i - start) =~= whole.subrange(start as int, i as int));
                assert(rest.skip(i - start + 1) =~= whole.skip(i + 1));
                let tail = split(whole.skip(i + 1), sep);
                assert(split(rest, sep) == seq![rest.take(i - start)] + tail);
                assert forall|k: int| 0 <= k < tail.len() implies tail[k] == #[trigger] split(
                    whole,
                    sep,
                )[ranges.len() + 1 + k] by {
                    assert(split(rest, sep)[k + 1] == tail[k]);
                    assert(split(rest, sep)[k + 1] == split(whole, sep)[ranges.len() + (k + 1)]);
                }
                assert(split(rest, sep)[0] == split(whole, sep)[ranges.len() + 0]);
            }
            ranges.push((start, i));
            start = i + 1;
        }
        i = i + 1;
    }
    proof {
        let rest = whole.skip(start as int);
        assert forall|j: int| 0 <= j < rest.len() implies rest[j] != sep by {
            assert(rest[j] == whole[start + j]);
        }
        lemma_first_index_is(rest, sep, rest.len() as int);
        assert(split(rest, sep) == seq![rest]);
        assert(rest =~= whole.subrange(start as int, chars.len() as int));
        assert(split(rest, sep)[0] == split(whole, sep)[ranges.len() + 0]);
    }
    ranges.push((start, chars.len()));
    ranges
}

/// The pieces of a text between occurrences of `sep`, as strings.
pub fn split_text(text: &str, sep: char) -> (pieces: Vec<String>)
    ensures
        texts(pieces@) == split(text@, sep),
{
    let chars = chars_of(text);
    let ranges = split_ranges(&chars, sep);
    let mut pieces: Vec<String> = Vec::new();
    let mut k: usize = 0;
    while k < ranges.len()
        invariant
            k <= ranges.len(),
            chars@ == text@,
            ranges.len() == split(chars@, sep).len(),
            forall|n: int|
                0 <= n < ranges.len() ==> (#[trigger] ranges[n]).0 <= ranges[n].1 <= chars.len()
                    && chars@.subrange(ranges[n].0 as int, ranges[n].1 as int) == split(
                    chars@,
                    sep,
                )[n],
            pieces.len() == k,
            forall|n: int| 0 <= n < k ==> (#[trigger] pieces[n])@ == split(chars@, sep)[n],
        decreases ranges.len() - k,
    {
        let (from, to) = ranges[k];
        pieces.push(string_of(&chars, from, to));
        k = k + 1;
    }
    assert(texts(pieces@) =~= split(text@, sep));
    pieces
}

/// The lines of a text, as strings.
pub fn lines_of(text: &str) -> (out: Vec<String>)
    ensures
        texts(out@) == lines(text@),
{
    let chars = chars_of(text);
    let ranges = split_ranges(&chars, '\n');
    let ghost pieces = split(chars@, '\n');
    let mut out: Vec<String> = Vec::new();
    let mut k: usize = 0;
    while k + 1 < ranges.len()
        invariant
            k + 1 <= ranges.len(),
            chars@ == text@,
            pieces == split(chars@, '\n'),
            ranges.len() == pieces.len(),
            forall|n: int|
                0 <= n < ranges.len() ==> (#[trigger] ranges[n]).0 <= ranges[n].1 <= chars.len()
                    && chars@.subrange(ranges[n].0 as int, ranges[n].1 as int) == pieces[n],
            out.len() == k,
            forall|n: int| 0 <= n < k ==> (#[trigger] out[n])@ == without_return(pieces[n]),
        decreases ranges.len() - k,
    {
        let (from, to) = ranges[k];
        let ghost piece = chars@.subrange(from as int, to as int);
        if from < to && chars[to - 1] == '\r' {
            assert(piece.last() == chars@[to - 1]);
            assert(piece.drop_last() =~= chars@.subrange(from as int, to - 1));
            out.push(string_of(&chars, from, to - 1));
        } else {
            if from < to {
                assert(piece.last() == chars@[to - 1]);
            }
            out.push(string_of(&chars, from, to));
        }
        k = k + 1;
    }
    let (from, to) = ranges[k];
    if from < to {
        out.push(string_of(&chars, from, to));
    }
    assert(texts(out@) =~= lines(text@));
    out
}

/// Whether `a` comes strictly before `b` when texts are ordered character by
/// character, a text before each of its extensions.
pub open spec fn precedes(a: Seq<char>, b: Seq<char>) -> bool
    decreases a.len(),
{
    if b.len() == 0 {
        false
    } else if a.len() == 0 {
        true
    } else if a[0] != b[0] {
        a[0] < b[0]
    } else {
        precedes(a.skip(1), b.skip(1))
    }
}

/// No text comes before itself.
pub proof fn lemma_precedes_irreflexive(a: Seq<char>)
    ensures
        !precedes(a, a),
    decreases a.len(),
{
    if a.len() > 0 {
        lemma_precedes_irreflexive(a.skip(1));
    }
}

/// Of two texts at most one comes before the other.
pub proof fn lemma_precedes_asymmetric(a: Seq<char>, b: Seq<char>)
    requires
        precedes(a, b),
    ensures
        !precedes(b, a),
    decreases a.len(),
{
    if a.len() > 0 && b.len() > 0 && a[0] == b[0] {
        lemma_precedes_asymmetric(a.skip(1), b.skip(1));
    }
}

/// What comes before a text comes before all that the text comes before.
pub proof fn lemma_precedes_transitive(a: Seq<char>, b: Seq<char>, c: Seq<char>)
    requires
        precedes(a, b),
        precedes(b, c),
    ensures
        precedes(a, c),
    decreases a.len(),
{
    if a.len() > 0 && b.len() > 0 && c.len() > 0 && a[0] == b[0] && b[0] == c[0] {
        lemma_precedes_transitive(a.skip(1), b.skip(1), c.skip(1));
    }
}

/// Of two different texts one comes before the other.
pub proof fn lemma_precedes_total(a: Seq<char>, b: Seq<char>)
    ensures
        a == b || precedes(a, b) || precedes(b, a),
    decreases a.len(),
{
    if a.len() == 0 || b.len() == 0 {
        if a.len() == 0 && b.len() == 0 {
            assert(a =~= b);
        }
    } else if a[0] == b[0] {
        lemma_precedes_total(a.skip(1), b.skip(1));
        if a.skip(1) == b.skip(1) {
            assert(a =~= seq![a[0]] + a.skip(1));
            assert(b =~= seq![b[0]] + b.skip(1));
        }
    }
}

/// A common start of two texts does not decide their order.
pub proof fn lemma_precedes_after(a: Seq<char>, b: Seq<char>, n: int)
    requires
        0 <= n <= a.len(),
        n <= b.len(),
        a.take(n) == b.take(n),
    ensures
        precedes(a, b) == precedes(a.skip(n), b.skip(n)),
    decreases n,
{
    if n == 0 {
        assert(a.skip(0) =~= a);
        assert(b.skip(0) =~= b);
    } else {
        assert(a[0] == a.take(n)[0]);
        assert(b[0] == b.take(n)[0]);
        assert(a.skip(1).take(n - 1) =~= a.take(n).skip(1));
        assert(b.skip(1).take(n - 1) =~= b.take(n).skip(1));
        lemma_precedes_after(a.skip(1), b.skip(1), n - 1);
        assert(a.skip(1).skip(n - 1) =~= a.skip(n));
        assert(b.skip(1).skip(n - 1) =~= b.skip(n));
    }
}

/// How one text stands to another in the order of `precedes`.
#[derive(Clone, Copy, Debug, PartialEq, Eq, Structural)]
pub enum Rank {
    Before,
    Same,
    After,
}

/// Where `a` stands relative to `b`.
pub fn rank(a: &str, b: &str) -> (r: Rank)
    ensures
        r == Rank::Before <==> precedes(a@, b@),
        r == Rank::Same <==> a@ == b@,
        r == Rank::After <==> precedes(b@, a@),
{
    let x = chars_of(a);
    let y = chars_of(b);
    let mut i: usize = 0;
    proof {
        lemma_precedes_irreflexive(a@);
    }
    while i < x.len() && i < y.len()
        invariant
            x@ == a@,
            y@ == b@,
            i <= x.len(),
            i <= y.len(),
            x@.take(i as int) == y@.take(i as int),
        decreases x.len() - i,
    {
        if x[i] != y[i] {
            proof {
                lemma_precedes_after(x@, y@, i as int);
                lemma_precedes_after(y@, x@, i as int);
                assert(x@.skip(i as int)[0] == x@[i as int]);
                assert(y@.skip(i as int)[0] == y@[i as int]);
                assert(x@ != y@);
            }
            if x[i] < y[i] {
                return Rank::Before;
            } else {
                return Rank::After;
            }
        }
        assert(x@.take(i + 1) =~= x@.take(i as int).push(x@[i as int]));
        assert(y@.take(i + 1) =~= y@.take(i as int).push(y@[i as int]));
        i = i + 1;
    }
    proof {
        lemma_precedes_after(x@, y@, i as int);
        lemma_precedes_after(y@, x@, i as int);
        if x.len() == y.len() {
            assert(x@ =~= x@.take(i as int));
            assert(y@ =~= y@.take(i as int));
        }
    }
    if x.len() < y.len() {
        Rank::Before
    } else if x.len() == y.len() {
        Rank::Same
    } else {
        Rank::After
    }
}

} // verus!
