//! Character-level text primitives: separators, lines, words, trimming and
//! unsigned decimal numbers. Each has a mathematical definition over
//! `Seq<char>` and an executable counterpart proved equal to it.

use vstd::prelude::*;

verus! {

/// `String::push` appends exactly one character.
pub assume_specification[ String::push ](s: &mut String, c: char)
    ensures
        final(s)@ == old(s)@.push(c),
;

/// The characters of each piece of a vector of pieces.
pub open spec fn texts(v: Seq<Vec<char>>) -> Seq<Seq<char>> {
    Seq::new(v.len(), |i: int| v[i]@)
}

/// One more piece has its characters behind those of the others.
pub proof fn lemma_texts_push(v: Seq<Vec<char>>, x: Vec<char>)
    ensures
        texts(v.push(x)) == texts(v).push(x@),
{
    assert(texts(v.push(x)) =~= texts(v).push(x@));
}

/// The characters of a string slice, in order.
pub fn chars_of(s: &str) -> (v: Vec<char>)
    ensures
        v@ == s@,
{
    let mut v: Vec<char> = Vec::new();
    for c in it: s.chars()
        invariant
            v@ == it.seq().take(it.index() as int),
            it.seq() == s@,
    {
        v.push(c);
    }
    v
}

/// The string made of the given characters, in order.
pub fn string_of(v: &Vec<char>) -> (s: String)
    ensures
        s@ == v@,
{
    let mut s = String::new();
    let mut i: usize = 0;
    while i < v.len()
        invariant
            i <= v.len(),
            s@ == v@.take(i as int),
        decreases v.len() - i,
    {
        s.push(v[i]);
        i += 1;
    }
    s
}

/// Appends all of `tail` to `out`.
pub fn push_all(out: &mut Vec<char>, tail: &Vec<char>)
    ensures
        final(out)@ == old(out)@ + tail@,
{
    let mut i: usize = 0;
    while i < tail.len()
        invariant
            i <= tail.len(),
            out@ == old(out)@ + tail@.take(i as int),
        decreases tail.len() - i,
    {
        out.push(tail[i]);
        i += 1;
    }
}

/// Appends the characters of `tail` to `out`.
pub fn push_str(out: &mut Vec<char>, tail: &str)
    ensures
        final(out)@ == old(out)@ + tail@,
{
    let t = chars_of(tail);
    push_all(out, &t);
}

/// The characters of `v` from `from` up to, not including, `to`.
pub(crate) fn copy_range(v: &Vec<char>, from: usize, to: usize) -> (r: Vec<char>)
    requires
        from <= to <= v.len(),
    ensures
        r@ == v@.subrange(from as int, to as int),
{
    let mut r: Vec<char> = Vec::new();
    let mut i: usize = from;
    while i < to
        invariant
            from <= i <= to <= v.len(),
            r@ == v@.subrange(from as int, i as int),
        decreases to - i,
    {
        r.push(v[i]);
        i += 1;
    }
    r
}

/// Whether `v` spells exactly `word`.
pub fn spells(v: &Vec<char>, word: &str) -> (r: bool)
    ensures
        r == (v@ == word@),
{
    let w = chars_of(word);
    if w.len() != v.len() {
        return false;
    }
    let mut i: usize = 0;
    while i < v.len()
        invariant
            i <= v.len(),
            w.len() == v.len(),
            w@ == word@,
            v@.take(i as int) == w@.take(i as int),
        decreases v.len() - i,
    {
        if v[i] != w[i] {
            assert(v@[i as int] != w@[i as int]);
            return false;
        }
        assert(v@.take(i + 1) =~= v@.take(i as int).push(v@[i as int]));
        assert(w@.take(i + 1) =~= w@.take(i as int).push(w@[i as int]));
        i += 1;
    }
    assert(v@ =~= v@.take(v.len() as int));
    assert(w@ =~= w@.take(w.len() as int));
    true
}

// ---------------------------------------------------------------------------
// Splitting on one separator
// ---------------------------------------------------------------------------

/// The pieces of `s` between occurrences of `sep`. A text with `n`
/// separators has `n + 1` pieces, some of which may be empty.
pub open spec fn split(s: Seq<char>, sep: char) -> Seq<Seq<char>>
    decreases s.len(),
{
    if s.len() == 0 {
        seq![Seq::<char>::empty()]
    } else {
        let head = split(s.drop_last(), sep);
        if s.last() == sep {
            head.push(Seq::<char>::empty())
        } else {
            head.drop_last().push(head.last().push(s.last()))
        }
    }
}

pub proof fn lemma_split_nonempty(s: Seq<char>, sep: char)
    ensures
        split(s, sep).len() >= 1,
    decreases s.len(),
{
    if s.len() > 0 {
        lemma_split_nonempty(s.drop_last(), sep);
    }
}

/// Splits `s` at every occurrence of `sep`.
pub fn split_chars(s: &Vec<char>, sep: char) -> (parts: Vec<Vec<char>>)
    ensures
        texts(parts@) == split(s@, sep),
        parts.len() >= 1,
{
    let mut parts: Vec<Vec<char>> = Vec::new();
    let mut cur: Vec<char> = Vec::new();
    let mut i: usize = 0;
    while i < s.len()
        invariant
            i <= s.len(),
            texts(parts@).push(cur@) == split(s@.take(i as int), sep),
        decreases s.len() - i,
    {
        let c = s[i];
        proof {
            assert(s@.take(i + 1).drop_last() =~= s@.take(i as int));
            assert(s@.take(i + 1).last() == c);
        }
        let ghost head = texts(parts@).push(cur@);
        if c == sep {
            proof {
                lemma_texts_push(parts@, cur);
            }
            parts.push(cur);
            cur = Vec::new();
            assert(texts(parts@).push(cur@) =~= head.push(Seq::<char>::empty()));
        } else {
            cur.push(c);
            assert(texts(parts@).push(cur@) =~= head.drop_last().push(head.last().push(c)));
        }
        i += 1;
    }
    proof {
        assert(s@.take(s.len() as int) =~= s@);
        lemma_texts_push(parts@, cur);
    }
    parts.push(cur);
    parts
}

/// A text without the separator is one piece.
pub proof fn lemma_split_whole(s: Seq<char>, sep: char)
    requires
        forall|i: int| 0 <= i < s.len() ==> s[i] != sep,
    ensures
        split(s, sep) == seq![s],
    decreases s.len(),
{
    if s.len() == 0 {
        assert(s =~= Seq::<char>::empty());
    } else {
        lemma_split_whole(s.drop_last(), sep);
        let head = split(s.drop_last(), sep);
        assert(head.drop_last().push(head.last().push(s.last())) =~= seq![s]) by {
            assert(s.drop_last().push(s.last()) =~= s);
        }
    }
}

/// Splitting a joined text: the last piece of the first text and the first
/// piece of the second become one piece.
pub proof fn lemma_split_concat(a: Seq<char>, b: Seq<char>, sep: char)
    ensures
        split(a + b, sep) == split(a, sep).drop_last().push(split(a, sep).last() + split(b, sep)[0])
            + split(b, sep).skip(1),
    decreases b.len(),
{
    lemma_split_nonempty(a, sep);
    lemma_split_nonempty(b, sep);
    let pa = split(a, sep);
    if b.len() == 0 {
        assert(a + b =~= a);
        assert(pa.last() + Seq::<char>::empty() =~= pa.last());
        assert(pa.drop_last().push(pa.last()) =~= pa);
        assert(split(b, sep).skip(1) =~= Seq::<Seq<char>>::empty());
        assert(pa + Seq::<Seq<char>>::empty() =~= pa);
    } else {
        let b0 = b.drop_last();
        lemma_split_concat(a, b0, sep);
        lemma_split_nonempty(b0, sep);
        assert((a + b).drop_last() =~= a + b0);
        assert((a + b).last() == b.last());
        let pb0 = split(b0, sep);
        let pb = split(b, sep);
        let joined0 = pa.drop_last().push(pa.last() + pb0[0]) + pb0.skip(1);
        let joined = pa.drop_last().push(pa.last() + pb[0]) + pb.skip(1);
        if b.last() == sep {
            assert(pb =~= pb0.push(Seq::<char>::empty()));
            assert(joined0.push(Seq::<char>::empty()) =~= joined);
        } else {
            let c = b.last();
            assert(pb =~= pb0.drop_last().push(pb0.last().push(c)));
            if pb0.len() == 1 {
                assert(pb0.skip(1) =~= Seq::<Seq<char>>::empty());
                assert(joined0 =~= pa.drop_last().push(pa.last() + pb0[0]));
                assert((pa.last() + pb0[0]).push(c) =~= pa.last() + pb0[0].push(c));
                assert(joined0.drop_last().push(joined0.last().push(c)) =~= joined);
            } else {
                assert(joined0.last() == pb0.last());
                assert(joined0.drop_last().push(joined0.last().push(c)) =~= joined);
            }
        }
    }
}

// ---------------------------------------------------------------------------
// Prefixes and splitting on a longer mark
// ---------------------------------------------------------------------------

/// Whether `s` begins with `p`.
pub open spec fn has_prefix(s: Seq<char>, p: Seq<char>) -> bool {
    p.len() <= s.len() && s.subrange(0, p.len() as int) == p
}

/// Whether `mark` stands in `s` at position `at`.
pub open spec fn stands_at(s: Seq<char>, mark: Seq<char>, at: int) -> bool {
    0 <= at && at + mark.len() <= s.len() && s.subrange(at, at + mark.len()) == mark
}

/// The pieces of `s` from `start` on, where the search for the next mark
/// has come to `at`.
pub open spec fn pieces_from(s: Seq<char>, mark: Seq<char>, start: int, at: int) -> Seq<Seq<char>>
    decreases s.len() - at,
{
    if mark.len() == 0 || at < 0 || at + mark.len() > s.len() {
        seq![s.subrange(start, s.len() as int)]
    } else if stands_at(s, mark, at) {
        seq![s.subrange(start, at)] + pieces_from(s, mark, at + mark.len(), at + mark.len())
    } else {
        pieces_from(s, mark, start, at + 1)
    }
}

/// The pieces of `s` between occurrences of `mark`, found from left to
/// right without overlap. An empty mark splits nothing.
pub open spec fn split_on(s: Seq<char>, mark: Seq<char>) -> Seq<Seq<char>> {
    pieces_from(s, mark, 0, 0)
}

/// Whether `mark` stands in `s` at position `at`.
pub fn found_at(s: &Vec<char>, mark: &Vec<char>, at: usize) -> (r: bool)
    ensures
        r == stands_at(s@, mark@, at as int),
{
    if mark.len() > s.len() || at > s.len() - mark.len() {
        return false;
    }
    let mut k: usize = 0;
    while k < mark.len()
        invariant
            k <= mark.len(),
            at + mark.len() <= s.len(),
            forall|j: int| 0 <= j < k ==> s@[at + j] == mark@[j],
        decreases mark.len() - k,
    {
        if s[at + k] != mark[k] {
            assert(s@.subrange(at as int, at + mark.len())[k as int] != mark@[k as int]);
            return false;
        }
        k += 1;
    }
    assert(s@.subrange(at as int, at + mark.len()) =~= mark@);
    true
}

/// Whether `s` begins with `prefix`.
pub fn begins_with(s: &Vec<char>, prefix: &str) -> (r: bool)
    ensures
        r == has_prefix(s@, prefix@),
{
    let p = chars_of(prefix);
    found_at(s, &p, 0)
}

/// Splits `s` at every occurrence of `mark`.
pub fn split_on_mark(s: &Vec<char>, mark: &str) -> (parts: Vec<Vec<char>>)
    ensures
        texts(parts@) == split_on(s@, mark@),
{
    let m = chars_of(mark);
    let mut parts: Vec<Vec<char>> = Vec::new();
    let mut start: usize = 0;
    let mut at: usize = 0;
    assert(texts(parts@) + pieces_from(s@, m@, 0, 0) =~= split_on(s@, mark@));
    while m.len() > 0 && m.len() <= s.len() && at <= s.len() - m.len()
        invariant
            start <= at <= s.len(),
            m@ == mark@,
            texts(parts@) + pieces_from(s@, m@, start as int, at as int) == split_on(s@, mark@),
        decreases s.len() - at,
    {
        let ghost done = texts(parts@);
        let ghost start0 = start;
        let ghost at0 = at;
        if found_at(s, &m, at) {
            let piece = copy_range(s, start, at);
            proof {
                lemma_texts_push(parts@, piece);
            }
            parts.push(piece);
            at = at + m.len();
            start = at;
assert(texts(parts@) + pieces_from(s@, m@, start as int, at as int) =~= done
                + pieces_from(s@, m@, start0 as int, at0 as int));
        } else {
            at += 1;
        }
    }
    let last = copy_range(s, start, s.len());
    proof {
        lemma_texts_push(parts@, last);
    }
    let ghost done = texts(parts@);
    parts.push(last);
    assert(texts(parts@) =~= done + seq![s@.subrange(start as int, s@.len() as int)]);
    parts
}

// ---------------------------------------------------------------------------
// Lines
// ---------------------------------------------------------------------------

/// `s` without one trailing carriage return, if it has one.
pub open spec fn strip_cr(s: Seq<char>) -> Seq<char> {
    if s.len() > 0 && s.last() == '\r' {
        s.drop_last()
    } else {
        s
    }
}

/// The lines of a text. A line ends at a line feed, or at a carriage return
/// directly followed by a line feed; the ending is not part of the line.
/// The last line needs no ending, and a text that ends in a line ending
/// has no further, empty line after it.
pub open spec fn lines(s: Seq<char>) -> Seq<Seq<char>> {
    let parts = split(s, '\n');
    let ended = Seq::new((parts.len() - 1) as nat, |i: int| strip_cr(parts[i]));
    if parts.last().len() == 0 {
        ended
    } else {
        ended.push(parts.last())
    }
}

/// Splits a text into its lines.
pub fn lines_of(s: &Vec<char>) -> (out: Vec<Vec<char>>)
    ensures
        texts(out@) == lines(s@),
{
    let parts = split_chars(s, '\n');
    let ghost pieces = split(s@, '\n');
    let mut out: Vec<Vec<char>> = Vec::new();
    let n = parts.len() - 1;
    let mut i: usize = 0;
    while i < n
        invariant
            i <= n,
            n + 1 == parts.len(),
            texts(parts@) == pieces,
            texts(out@) == Seq::new(i as nat, |k: int| strip_cr(pieces[k])),
        decreases n - i,
    {
        let p = &parts[i];
        assert(p@ == pieces[i as int]);
        let m = p.len();
        let line = if m > 0 && p[m - 1] == '\r' {
            copy_range(p, 0, m - 1)
        } else {
            copy_range(p, 0, m)
        };
        assert(line@ =~= strip_cr(pieces[i as int]));
        proof {
            lemma_texts_push(out@, line);
        }
        out.push(line);
        assert(texts(out@) =~= Seq::new((i + 1) as nat, |k: int| strip_cr(pieces[k])));
        i += 1;
    }
    let last = &parts[n];
    assert(last@ == pieces.last());
    if last.len() > 0 {
        let line = copy_range(last, 0, last.len());
        assert(line@ =~= pieces.last());
        proof {
            lemma_texts_push(out@, line);
        }
        out.push(line);
    }
    out
}

// ---------------------------------------------------------------------------
// Whitespace, words and trimming
// ---------------------------------------------------------------------------

/// The characters with the Unicode property `White_Space`.
pub open spec fn is_space(c: char) -> bool {
    let u = c as u32;
    (0x09 <= u && u <= 0x0D) || u == 0x20 || u == 0x85 || u == 0xA0 || u == 0x1680 || (0x2000 <= u
        && u <= 0x200A) || u == 0x2028 || u == 0x2029 || u == 0x202F || u == 0x205F || u == 0x3000
}

/// Whether `c` is whitespace.
pub fn is_space_char(c: char) -> (r: bool)
    ensures
        r == is_space(c),
{
    let u: u32 = c as u32;
    (0x09 <= u && u <= 0x0D) || u == 0x20 || u == 0x85 || u == 0xA0 || u == 0x1680 || (0x2000 <= u
        && u <= 0x200A) || u == 0x2028 || u == 0x2029 || u == 0x202F || u == 0x205F || u == 0x3000
}

/// The words of a text: its maximal runs of characters that are not
/// whitespace, in order.
pub open spec fn words(s: Seq<char>) -> Seq<Seq<char>>
    decreases s.len(),
{
    if s.len() == 0 {
        Seq::<Seq<char>>::empty()
    } else {
        let head = words(s.drop_last());
        if is_space(s.last()) {
            head
        } else if s.len() >= 2 && !is_space(s[s.len() - 2]) {
            head.drop_last().push(head.last().push(s.last()))
        } else {
            head.push(seq![s.last()])
        }
    }
}

/// Splits a text into its words.
pub fn words_of(s: &Vec<char>) -> (out: Vec<Vec<char>>)
    ensures
        texts(out@) == words(s@),
{
    let mut out: Vec<Vec<char>> = Vec::new();
    let mut cur: Vec<char> = Vec::new();
    let mut i: usize = 0;
    while i < s.len()
        invariant
            i <= s.len(),
            cur@.len() > 0 ==> i > 0 && !is_space(s@[i - 1]) && texts(out@).push(cur@) == words(
                s@.take(i as int),
            ),
            cur@.len() == 0 ==> (i == 0 || is_space(s@[i - 1])) && texts(out@) == words(
                s@.take(i as int),
            ),
        decreases s.len() - i,
    {
        let c = s[i];
        let ghost before = s@.take(i as int);
        let ghost after = s@.take(i + 1);
        proof {
            assert(after.drop_last() =~= before);
            assert(after.last() == c);
            if i > 0 {
                assert(after[after.len() - 2] == s@[i - 1]);
            }
        }
        if is_space_char(c) {
            if cur.len() > 0 {
                proof {
                    lemma_texts_push(out@, cur);
                }
                out.push(cur);
                cur = Vec::new();
            }
        } else {
            let ghost head = words(before);
            let ghost open = cur@;
            cur.push(c);
            proof {
                if open.len() > 0 {
                    assert(texts(out@).push(cur@) =~= head.drop_last().push(head.last().push(c)));
                } else {
                    assert(cur@ =~= seq![c]);
                }
            }
        }
        i += 1;
    }
    proof {
        assert(s@.take(s.len() as int) =~= s@);
    }
    if cur.len() > 0 {
        proof {
            lemma_texts_push(out@, cur);
        }
        out.push(cur);
    }
    out
}

/// `s` without its leading whitespace.
pub open spec fn trim_start(s: Seq<char>) -> Seq<char>
    decreases s.len(),
{
    if s.len() > 0 && is_space(s[0]) {
        trim_start(s.skip(1))
    } else {
        s
    }
}

/// `s` without its trailing whitespace.
pub open spec fn trim_end(s: Seq<char>) -> Seq<char>
    decreases s.len(),
{
    if s.len() > 0 && is_space(s.last()) {
        trim_end(s.drop_last())
    } else {
        s
    }
}

/// `s` without its leading and trailing whitespace.
pub open spec fn trim(s: Seq<char>) -> Seq<char> {
    trim_end(trim_start(s))
}

/// Removes leading and trailing whitespace.
pub fn trim_chars(s: &Vec<char>) -> (r: Vec<char>)
    ensures
        r@ == trim(s@),
{
    let mut a: usize = 0;
    assert(s@.skip(0) =~= s@);
    while a < s.len() && is_space_char(s[a])
        invariant
            a <= s.len(),
            trim_start(s@) == trim_start(s@.skip(a as int)),
        decreases s.len() - a,
    {
        assert(s@.skip(a as int).skip(1) =~= s@.skip(a + 1));
        a += 1;
    }
    assert(trim_start(s@) == s@.skip(a as int)) by {
        assert(s@.skip(a as int).len() > 0 ==> s@.skip(a as int)[0] == s@[a as int]);
    }
    let mut b: usize = s.len();
    assert(s@.subrange(a as int, b as int) =~= s@.skip(a as int));
    while b > a && is_space_char(s[b - 1])
        invariant
            a <= b <= s.len(),
            trim(s@) == trim_end(s@.subrange(a as int, b as int)),
        decreases b,
    {
        assert(s@.subrange(a as int, b as int).drop_last() =~= s@.subrange(a as int, b - 1));
        assert(s@.subrange(a as int, b as int).last() == s@[b - 1]);
        b -= 1;
    }
    assert(trim(s@) == s@.subrange(a as int, b as int)) by {
        let t = s@.subrange(a as int, b as int);
        assert(t.len() > 0 ==> t.last() == s@[b - 1]);
    }
    copy_range(s, a, b)
}

// ---------------------------------------------------------------------------
// Unsigned decimal numbers
// ---------------------------------------------------------------------------

/// Whether `c` is one of the ten ASCII digits.
pub open spec fn is_digit(c: char) -> bool {
    48 <= c as u32 && c as u32 <= 57
}

/// The value of a digit.
pub open spec fn digit_of(c: char) -> nat {
    (c as u32 - 48) as nat
}

/// Whether every character of `s` is a digit.
pub open spec fn all_digits(s: Seq<char>) -> bool {
    forall|i: int| 0 <= i < s.len() ==> is_digit(#[trigger] s[i])
}

/// The number that a run of digits denotes in base ten.
pub open spec fn digits_value(s: Seq<char>) -> nat
    decreases s.len(),
{
    if s.len() == 0 {
        0
    } else {
        digits_value(s.drop_last()) * 10 + digit_of(s.last())
    }
}

/// The digits of a text that may begin with one plus sign.
pub open spec fn unsigned_body(s: Seq<char>) -> Seq<char> {
    if s.len() > 0 && s[0] == '+' {
        s.skip(1)
    } else {
        s
    }
}

/// The number that `s` denotes, if it is an optional plus sign followed by
/// one or more digits and the number is at most `max`.
pub open spec fn unsigned_of(s: Seq<char>, max: nat) -> Option<nat> {
    let body = unsigned_body(s);
    if body.len() > 0 && all_digits(body) && digits_value(body) <= max {
        Some(digits_value(body))
    } else {
        None
    }
}

/// A number only grows when digits are appended to it.
pub proof fn lemma_digits_value_grows(s: Seq<char>, k: int)
    requires
        0 <= k <= s.len(),
    ensures
        digits_value(s.take(k)) <= digits_value(s),
    decreases s.len() - k,
{
    if k < s.len() {
        lemma_digits_value_grows(s, k + 1);
        assert(s.take(k + 1).drop_last() =~= s.take(k));
    } else {
        assert(s.take(k) =~= s);
    }
}

/// Reads an unsigned decimal number that is at most `max`.
pub fn parse_unsigned(s: &Vec<char>, max: u32) -> (r: Option<u32>)
    ensures
        match r {
            Some(n) => unsigned_of(s@, max as nat) == Some(n as nat),
            None => unsigned_of(s@, max as nat) is None,
        },
{
    let start: usize = if s.len() > 0 && s[0] == '+' {
        1
    } else {
        0
    };
    let ghost body = unsigned_body(s@);
    assert(body =~= s@.skip(start as int));
    if start == s.len() {
        return None;
    }
    let mut acc: u64 = 0;
    let mut i: usize = start;
    while i < s.len()
        invariant
            start <= i <= s.len(),
            body == unsigned_body(s@),
            body == s@.skip(start as int),
            all_digits(body.take(i - start)),
            acc == digits_value(body.take(i - start)),
            acc <= max,
        decreases s.len() - i,
    {
        let u: u32 = s[i] as u32;
        if u < 48 || u > 57 {
            assert(body[i - start] == s@[i as int]);
            assert(!is_digit(body[i - start]));
            assert(!all_digits(body));
            return None;
        }
        let ghost next = body.take(i - start + 1);
        proof {
            assert(next.drop_last() =~= body.take(i - start));
            assert(next.last() == s@[i as int]);
            assert forall|k: int| 0 <= k < next.len() implies is_digit(#[trigger] next[k]) by {
                if k < next.len() - 1 {
                    assert(next[k] == body.take(i - start)[k]);
                }
            }
        }
        acc = acc * 10 + (u - 48) as u64;
        if acc > max as u64 {
            proof {
                lemma_digits_value_grows(body, i - start + 1);
            }
            return None;
        }
        i += 1;
    }
    assert(body.take(i - start) =~= body);
    Some(acc as u32)
}

/// The digits of a number in base ten, without leading zeros.
pub open spec fn numeral(n: nat) -> Seq<char>
    decreases n,
{
    if n < 10 {
        seq![((n + 48) as u8) as char]
    } else {
        numeral(n / 10).push((((n % 10) + 48) as u8) as char)
    }
}

/// The digits of a number denote that number.
pub proof fn lemma_numeral(n: nat)
    ensures
        numeral(n).len() >= 1,
        all_digits(numeral(n)),
        digits_value(numeral(n)) == n,
        n > 0 ==> numeral(n)[0] != '0',
        n == 0 ==> numeral(n) == seq!['0'],
    decreases n,
{
    if n < 10 {
        let s = numeral(n);
        assert(s.drop_last() =~= Seq::<char>::empty());
        assert(digits_value(s.drop_last()) == 0);
        assert(s =~= seq![((n + 48) as u8) as char]);
    } else {
        lemma_numeral(n / 10);
        let s = numeral(n);
        assert(s.drop_last() =~= numeral(n / 10));
        assert(s[0] == numeral(n / 10)[0]);
    }
}

/// Appends the digits of `n` to `out`.
pub fn push_numeral(out: &mut Vec<char>, n: u32)
    ensures
        final(out)@ == old(out)@ + numeral(n as nat),
    decreases n,
{
    if n >= 10 {
        push_numeral(out, n / 10);
    }
    let d: u8 = (n % 10) as u8;
    out.push((d + 48) as char);
    proof {
        if n >= 10 {
            assert(out@
                =~= old(out)@ + numeral((n / 10) as nat).push(((((n % 10) as nat) + 48) as u8) as char));
        } else {
            assert(out@ =~= old(out)@ + seq![((n as nat + 48) as u8) as char]);
        }
    }
}

// ---------------------------------------------------------------------------
// Facts about texts that are put together and taken apart again
// ---------------------------------------------------------------------------

/// Whether `c` may stand in a written number or date: a digit, a minus
/// sign or a point.
pub open spec fn is_plain(c: char) -> bool {
    is_digit(c) || c == '-' || c == '.'
}

/// A word of digits, minus signs and points, with at least one character.
pub open spec fn plain(s: Seq<char>) -> bool {
    s.len() > 0 && forall|i: int| 0 <= i < s.len() ==> is_plain(#[trigger] s[i])
}

/// Whether no character of `s` is `c`.
pub open spec fn lacks(s: Seq<char>, c: char) -> bool {
    forall|i: int| 0 <= i < s.len() ==> #[trigger] s[i] != c
}

/// A plain character is no whitespace, colon or line ending.
pub proof fn lemma_plain_char(c: char)
    requires
        is_plain(c),
    ensures
        !is_space(c),
        c != ':',
        c != '\n',
        c != '\r',
        c != '+',
        c != ' ',
{
}

/// What holds of the separator and of every character of every piece
/// holds of every character of the text.
pub proof fn lemma_split_all(s: Seq<char>, sep: char, pred: spec_fn(char) -> bool)
    requires
        pred(sep),
        forall|k: int, j: int|
            0 <= k < split(s, sep).len() && 0 <= j < split(s, sep)[k].len() ==> pred(
                #[trigger] split(s, sep)[k][j],
            ),
    ensures
        forall|i: int| 0 <= i < s.len() ==> pred(#[trigger] s[i]),
    decreases s.len(),
{
    if s.len() > 0 {
        let front = s.drop_last();
        let head = split(front, sep);
        let all = split(s, sep);
        lemma_split_nonempty(front, sep);
        if s.last() == sep {
            assert forall|k: int, j: int| 0 <= k < head.len()
                && 0 <= j < head[k].len() implies pred(
                #[trigger] head[k][j],
            ) by {
                assert(all[k][j] == head[k][j]);
            }
        } else {
            assert forall|k: int, j: int| 0 <= k < head.len()
                && 0 <= j < head[k].len() implies pred(
                #[trigger] head[k][j],
            ) by {
                assert(all[k][j] == head[k][j]);
            }
            let m = all.len() - 1;
            assert(all[m][all[m].len() - 1] == s.last());
        }
        lemma_split_all(front, sep, pred);
        assert forall|i: int| 0 <= i < s.len() implies pred(#[trigger] s[i]) by {
            if i < front.len() {
                assert(front[i] == s[i]);
            }
        }
    }
}

/// A text without the separator, put behind a text and a separator, is
/// one more piece.
pub proof fn lemma_split_append(x: Seq<char>, b: Seq<char>, sep: char)
    requires
        lacks(b, sep),
    ensures
        split(x + seq![sep] + b, sep) == split(x, sep).push(b),
{
    lemma_split_nonempty(x, sep);
    lemma_split_whole(b, sep);
    let mark = seq![sep];
    assert(split(mark, sep) =~= seq![Seq::<char>::empty(), Seq::<char>::empty()]) by {
        assert(mark.drop_last() =~= Seq::<char>::empty());
        assert(split(mark.drop_last(), sep) =~= seq![Seq::<char>::empty()]);
    }
    lemma_split_concat(x, mark, sep);
    let px = split(x, sep);
    assert(split(x + mark, sep) =~= px.push(Seq::<char>::empty())) by {
        assert(px.last() + Seq::<char>::empty() =~= px.last());
        assert(px.drop_last().push(px.last()) =~= px);
    }
    lemma_split_concat(x + mark, b, sep);
    assert(split(x + mark + b, sep) =~= px.push(b)) by {
        assert(Seq::<char>::empty() + b =~= b);
        assert(px.push(Seq::<char>::empty()).drop_last() =~= px);
    }
}

/// The digits of a number are a plain word that reads back as the number.
pub proof fn lemma_numeral_reads_back(n: nat, max: nat)
    requires
        n <= max,
    ensures
        plain(numeral(n)),
        lacks(numeral(n), '-'),
        lacks(numeral(n), '.'),
        unsigned_of(numeral(n), max) == Some(n),
{
    lemma_numeral(n);
    let s = numeral(n);
    assert(is_digit(s[0]));
    assert(unsigned_body(s) == s);
    assert forall|i: int| 0 <= i < s.len() implies is_plain(#[trigger] s[i]) && s[i] != '-' && s[i]
        != '.' by {
        assert(is_digit(s[i]));
    }
}

/// Two texts without the separator, joined by it, split into the two.
pub proof fn lemma_split_pair(a: Seq<char>, b: Seq<char>, sep: char)
    requires
        lacks(a, sep),
        lacks(b, sep),
    ensures
        split(a + seq![sep] + b, sep) == seq![a, b],
{
    lemma_split_whole(a, sep);
    lemma_split_whole(b, sep);
    let mark = seq![sep];
    assert(split(mark, sep) =~= seq![Seq::<char>::empty(), Seq::<char>::empty()]) by {
        assert(mark.drop_last() =~= Seq::<char>::empty());
        assert(split(mark.drop_last(), sep) =~= seq![Seq::<char>::empty()]);
    }
    lemma_split_concat(a, mark, sep);
    assert(split(a + mark, sep) =~= seq![a, Seq::<char>::empty()]) by {
        assert(a + Seq::<char>::empty() =~= a);
    }
    lemma_split_concat(a + mark, b, sep);
    assert(split(a + mark + b, sep) =~= seq![a, b]) by {
        assert(Seq::<char>::empty() + b =~= b);
    }
}

/// Some lines, each followed by a line feed.
pub open spec fn joined_lines(bodies: Seq<Seq<char>>) -> Seq<char>
    decreases bodies.len(),
{
    if bodies.len() == 0 {
        Seq::<char>::empty()
    } else {
        joined_lines(bodies.drop_last()) + bodies.last() + seq!['\n']
    }
}

/// Lines that hold no line ending, each followed by a line feed, split at
/// the line feeds into those lines and an empty rest.
pub proof fn lemma_split_joined(bodies: Seq<Seq<char>>)
    requires
        forall|k: int| 0 <= k < bodies.len() ==> lacks(#[trigger] bodies[k], '\n'),
    ensures
        split(joined_lines(bodies), '\n') == bodies.push(Seq::<char>::empty()),
    decreases bodies.len(),
{
    if bodies.len() == 0 {
        assert(split(joined_lines(bodies), '\n') =~= bodies.push(Seq::<char>::empty()));
    } else {
        let front = bodies.drop_last();
        let body = bodies.last();
        assert forall|k: int| 0 <= k < front.len() implies lacks(#[trigger] front[k], '\n') by {
            assert(front[k] == bodies[k]);
        }
        lemma_split_joined(front);
        let head = joined_lines(front);
        let tail = body + seq!['\n'];
        assert(split(tail, '\n') =~= seq![body, Seq::<char>::empty()]) by {
            lemma_split_pair(body, Seq::<char>::empty(), '\n');
            assert(body + seq!['\n'] + Seq::<char>::empty() =~= tail);
        }
        lemma_split_concat(head, tail, '\n');
        assert(head + tail =~= joined_lines(bodies));
        assert(Seq::<char>::empty() + body =~= body);
        assert(split(head + tail, '\n') =~= bodies.push(Seq::<char>::empty()));
    }
}

/// Lines that hold no line ending, each followed by a line feed, are the
/// lines of the text they make.
pub proof fn lemma_lines_joined(bodies: Seq<Seq<char>>)
    requires
        forall|k: int| 0 <= k < bodies.len() ==> lacks(#[trigger] bodies[k], '\n'),
        forall|k: int| 0 <= k < bodies.len() ==> lacks(#[trigger] bodies[k], '\r'),
    ensures
        lines(joined_lines(bodies)) == bodies,
{
    lemma_split_joined(bodies);
    let parts = split(joined_lines(bodies), '\n');
    let ended = Seq::new((parts.len() - 1) as nat, |i: int| strip_cr(parts[i]));
    assert(ended =~= bodies) by {
        assert forall|i: int| 0 <= i < bodies.len() implies ended[i] == bodies[i] by {
            assert(parts[i] == bodies[i]);
            if bodies[i].len() > 0 {
                assert(bodies[i][bodies[i].len() - 1] != '\r');
            }
        }
    }
}

/// A plain word behind a space is one more word.
pub proof fn lemma_words_push(s: Seq<char>, w: Seq<char>)
    requires
        plain(w),
    ensures
        words(s + seq![' '] + w) == words(s).push(w),
    decreases w.len(),
{
    let c = w.last();
    lemma_plain_char(c);
    let front = w.drop_last();
    let whole = s + seq![' '] + w;
    let before = s + seq![' '] + front;
    assert(whole.drop_last() =~= before);
    assert(whole.last() == c);
    if front.len() == 0 {
        assert(before =~= s + seq![' ']);
        assert(before.last() == ' ');
        assert(before.drop_last() =~= s);
        assert(words(before) == words(s));
        assert(whole[whole.len() - 2] == ' ');
        assert(w =~= seq![c]);
    } else {
        assert(plain(front)) by {
            assert forall|i: int| 0 <= i < front.len() implies is_plain(#[trigger] front[i]) by {
                assert(front[i] == w[i]);
            }
        }
        lemma_words_push(s, front);
        assert(whole[whole.len() - 2] == front.last());
        assert(front.last() == w[w.len() - 2]);
        lemma_plain_char(front.last());
        assert(front.push(c) =~= w);
        assert(words(s).push(front).drop_last() =~= words(s));
    }
}

/// A text without whitespace at either end is its own trimming.
pub proof fn lemma_trim_nothing(s: Seq<char>)
    requires
        s.len() > 0 ==> !is_space(s[0]) && !is_space(s.last()),
    ensures
        trim(s) == s,
{
}

} // verus!
