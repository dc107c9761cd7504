//! Text as a sequence of characters: the string operations that the rest of
//! the library is stated in.

use crate::seqs;
use vstd::prelude::*;

verus! {

/// `String::push` of std: the character is appended to the end of the string.
pub assume_specification[ String::push ](s: &mut String, c: char)
    ensures
        final(s)@ == old(s)@.push(c),
;

/// `String::push_str` of std: the characters of `t` are appended, in order.
pub assume_specification[ String::push_str ](s: &mut String, t: &str)
    ensures
        final(s)@ == old(s)@ + t@,
;

/// `str == str` of std: two string slices are equal exactly when they hold
/// the same characters.
pub assume_specification[ <str as PartialEq>::eq ](s: &str, other: &str) -> (res: bool)
    ensures
        res == (s@ == other@),
;

/// The empty literal holds no characters.
pub proof fn lemma_empty_literal()
    ensures
        ""@ == Seq::<char>::empty(),
{
    reveal_strlit("");
    assert(""@ =~= Seq::<char>::empty());
}

/// The views of a sequence of strings.
pub open spec fn texts(v: Seq<String>) -> Seq<Seq<char>> {
    Seq::new(v.len(), |i: int| v[i]@)
}

// ---------------------------------------------------------------------------
// Characters in, characters out
// ---------------------------------------------------------------------------

/// A copy of a list of texts.
pub fn clone_texts(v: &Vec<String>) -> (r: Vec<String>)
    ensures
        texts(r@) == texts(v@),
{
    let mut out: Vec<String> = Vec::new();
    let mut i: usize = 0;
    while i < v.len()
        invariant
            0 <= i <= v@.len(),
            out@.len() == i,
            forall|k: int| 0 <= k < i ==> #[trigger] out@[k]@ == v@[k]@,
        decreases v@.len() - i,
    {
        out.push(v[i].clone());
        i += 1;
    }
    proof {
        assert(texts(out@) =~= texts(v@));
    }
    out
}

/// The characters of `s`.
pub fn chars_of(s: &str) -> (r: Vec<char>)
    ensures
        r@ == s@,
{
    let mut r: Vec<char> = Vec::new();
    for c in it: s.chars()
        invariant
            it.seq() == s@,
            r@ == s@.take(it.index() as int),
    {
        r.push(c);
    }
    r
}

/// The string that holds exactly the characters `cs[from..to]`.
pub fn string_of(cs: &[char], from: usize, to: usize) -> (r: String)
    requires
        from <= to <= cs@.len(),
    ensures
        r@ == cs@.subrange(from as int, to as int),
{
    let mut r = String::new();
    let mut i: usize = from;
    while i < to
        invariant
            from <= i <= to <= cs@.len(),
            r@ == cs@.subrange(from as int, i as int),
        decreases to - i,
    {
        r.push(cs[i]);
        i += 1;
    }
    r
}

/// Whether `a` and `b` hold the same characters.
pub fn str_eq(a: &str, b: &str) -> (r: bool)
    ensures
        r == (a@ == b@),
{
    *a == *b
}

// ---------------------------------------------------------------------------
// Searching
// ---------------------------------------------------------------------------

/// Whether `p` occurs in `s` with its first character at index `i`.
pub open spec fn occurs_at(s: Seq<char>, p: Seq<char>, i: int) -> bool {
    &&& 0 <= i
    &&& i + p.len() <= s.len()
    &&& s.subrange(i, i + p.len()) == p
}

/// Whether `p` occurs somewhere in `s`.
pub open spec fn contains(s: Seq<char>, p: Seq<char>) -> bool {
    exists|i: int| occurs_at(s, p, i)
}

/// Whether `s` begins with `p`.
pub open spec fn starts_with(s: Seq<char>, p: Seq<char>) -> bool {
    occurs_at(s, p, 0)
}

/// Whether `s` ends with `p`.
pub open spec fn ends_with(s: Seq<char>, p: Seq<char>) -> bool {
    occurs_at(s, p, s.len() - p.len())
}

/// The index of the first occurrence of `p` in `s` at or after `from`.
pub open spec fn find_from(s: Seq<char>, p: Seq<char>, from: int) -> Option<int>
    decreases s.len() + 1 - from,
{
    if from < 0 || from + p.len() > s.len() {
        None
    } else if occurs_at(s, p, from) {
        Some(from)
    } else {
        find_from(s, p, from + 1)
    }
}

/// `find_from` gives the first occurrence, and nothing only where there is none.
pub proof fn lemma_find_from(s: Seq<char>, p: Seq<char>, from: int)
    requires
        0 <= from,
    ensures
        find_from(s, p, from) matches Some(i) ==> from <= i && occurs_at(s, p, i),
        find_from(s, p, from) matches Some(i) ==> forall|j: int|
            from <= j < i ==> !occurs_at(s, p, j),
        find_from(s, p, from) is None ==> forall|j: int| from <= j ==> !occurs_at(s, p, j),
    decreases s.len() + 1 - from,
{
    if from + p.len() <= s.len() && !occurs_at(s, p, from) {
        lemma_find_from(s, p, from + 1);
    }
}

/// `contains` is what `find_from` decides.
pub proof fn lemma_contains_find(s: Seq<char>, p: Seq<char>)
    ensures
        contains(s, p) <==> find_from(s, p, 0) is Some,
{
    lemma_find_from(s, p, 0);
}

/// Whether `p` occurs in `s` at index `i`.
pub fn matches_at(s: &[char], p: &[char], i: usize) -> (r: bool)
    ensures
        r == occurs_at(s@, p@, i as int),
{
    if i > s.len() || s.len() - i < p.len() {
        return false;
    }
    let n: usize = s.len();
    let mut k: usize = 0;
    while k < p.len()
        invariant
            0 <= k <= p@.len(),
            i + p@.len() <= s@.len() == n,
            forall|j: int| 0 <= j < k ==> s@[i + j] == p@[j],
        decreases p@.len() - k,
    {
        if s[i + k] != p[k] {
            assert(s@.subrange(i as int, i + p@.len())[k as int] != p@[k as int]);
            return false;
        }
        k += 1;
    }
    assert(s@.subrange(i as int, i + p@.len()) =~= p@);
    true
}

/// The index of the first occurrence of `p` in `s` at or after `from`.
pub fn find_at(s: &[char], p: &[char], from: usize) -> (r: Option<usize>)
    ensures
        r matches Some(i) ==> find_from(s@, p@, from as int) == Some(i as int),
        r is None ==> find_from(s@, p@, from as int) is None,
{
    if from > s.len() || s.len() - from < p.len() {
        return None;
    }
    let last: usize = s.len() - p.len();
    let mut i: usize = from;
    while i <= last
        invariant
            from <= i <= last + 1,
            last + p@.len() == s@.len(),
            find_from(s@, p@, from as int) == find_from(s@, p@, i as int),
        decreases last + 1 - i,
    {
        if matches_at(s, p, i) {
            return Some(i);
        }
        if i == last {
            assert(find_from(s@, p@, i + 1) is None);
            return None;
        }
        i += 1;
    }
    None
}

/// Whether `p` occurs somewhere in `s`.
pub fn str_contains(s: &str, p: &str) -> (r: bool)
    ensures
        r == contains(s@, p@),
{
    let sc = chars_of(s);
    let pc = chars_of(p);
    proof {
        lemma_contains_find(s@, p@);
    }
    find_at(sc.as_slice(), pc.as_slice(), 0).is_some()
}

/// Whether `s` begins with `p`.
pub fn str_starts_with(s: &str, p: &str) -> (r: bool)
    ensures
        r == starts_with(s@, p@),
{
    let sc = chars_of(s);
    let pc = chars_of(p);
    matches_at(sc.as_slice(), pc.as_slice(), 0)
}

/// Whether `s` ends with `p`.
pub fn str_ends_with(s: &str, p: &str) -> (r: bool)
    ensures
        r == ends_with(s@, p@),
{
    let sc = chars_of(s);
    let pc = chars_of(p);
    if pc.len() > sc.len() {
        return false;
    }
    matches_at(sc.as_slice(), pc.as_slice(), sc.len() - pc.len())
}

/// `s` with each occurrence of `p` replaced by `by`, left to right, without
/// overlaps; `p` is not empty.
pub open spec fn replace_all(s: Seq<char>, p: Seq<char>, by: Seq<char>) -> Seq<char>
    decreases s.len(),
{
    match find_from(s, p, 0) {
        Some(i) if 0 <= i && p.len() > 0 && i + p.len() <= s.len() => s.take(i) + by
            + replace_all(s.skip(i + p.len()), p, by),
        _ => s,
    }
}

/// Finding in the rest of a text is finding in the text, counted from there.
pub proof fn lemma_find_shift(s: Seq<char>, p: Seq<char>, k: int, from: int)
    requires
        0 <= k <= s.len(),
        0 <= from,
    ensures
        find_from(s.skip(k), p, from) == (match find_from(s, p, k + from) {
            Some(i) => Some(i - k),
            None => None::<int>,
        }),
    decreases s.len() + 1 - k - from,
{
    let t = s.skip(k);
    if from + p.len() <= t.len() {
        assert(t.subrange(from, from + p.len()) =~= s.subrange(k + from, k + from + p.len()));
        lemma_find_shift(s, p, k, from + 1);
    }
}

/// `s` with each occurrence of `p` replaced by `by`.
pub fn str_replace(s: &str, p: &str, by: &str) -> (r: String)
    requires
        p@.len() > 0,
    ensures
        r@ == replace_all(s@, p@, by@),
{
    let sc = chars_of(s);
    let pc = chars_of(p);
    let n: usize = sc.len();
    let mut r = String::new();
    let mut at: usize = 0;
    proof {
        assert(s@.skip(0) =~= s@);
    }
    loop
        invariant
            n == s@.len(),
            sc@ == s@,
            pc@ == p@,
            p@.len() > 0,
            0 <= at <= s@.len(),
            replace_all(s@, p@, by@) == r@ + replace_all(s@.skip(at as int), p@, by@),
        decreases s@.len() - at,
    {
        let hit = find_at(sc.as_slice(), pc.as_slice(), at);
        proof {
            lemma_find_shift(s@, p@, at as int, 0);
            lemma_find_from(s@, p@, at as int);
        }
        match hit {
            Some(i) => {
                let before = string_of(sc.as_slice(), at, i);
                proof {
                    let t = s@.skip(at as int);
                    assert(t.take(i - at) =~= before@);
                    assert(t.skip(i - at + p@.len()) =~= s@.skip(i + p@.len()));
                }
                r.push_str(before.as_str());
                r.push_str(by);
                at = i + pc.len();
            },
            None => {
                let rest = string_of(sc.as_slice(), at, sc.len());
                proof {
                    assert(s@.skip(at as int) =~= rest@);
                }
                r.push_str(rest.as_str());
                return r;
            },
        }
    }
}

// ---------------------------------------------------------------------------
// White space
// ---------------------------------------------------------------------------

/// The characters with the Unicode property `White_Space`.
pub open spec fn is_white(c: char) -> bool {
    let u = c as u32;
    ||| 0x9 <= u <= 0xd
    ||| u == 0x20
    ||| u == 0x85
    ||| u == 0xa0
    ||| u == 0x1680
    ||| 0x2000 <= u <= 0x200a
    ||| u == 0x2028
    ||| u == 0x2029
    ||| u == 0x202f
    ||| u == 0x205f
    ||| u == 0x3000
}

/// Whether `c` has the Unicode property `White_Space`.
pub fn char_is_white(c: char) -> (r: bool)
    ensures
        r == is_white(c),
{
    let u: u32 = c as u32;
    (0x9 <= u && u <= 0xd) || u == 0x20 || u == 0x85 || u == 0xa0 || u == 0x1680 || (0x2000 <= u
        && u <= 0x200a) || u == 0x2028 || u == 0x2029 || u == 0x202f || u == 0x205f || u == 0x3000
}

/// How many white space characters `s` begins with.
pub open spec fn lead_white(s: Seq<char>) -> nat
    decreases s.len(),
{
    if s.len() == 0 || !is_white(s[0]) {
        0
    } else {
        1 + lead_white(s.skip(1))
    }
}

/// `s` without the white space at its start.
pub open spec fn trim_start(s: Seq<char>) -> Seq<char>
    decreases s.len(),
{
    if s.len() == 0 || !is_white(s[0]) {
        s
    } else {
        trim_start(s.skip(1))
    }
}

/// `s` without the white space at its end.
pub open spec fn trim_end(s: Seq<char>) -> Seq<char>
    decreases s.len(),
{
    if s.len() == 0 || !is_white(s.last()) {
        s
    } else {
        trim_end(s.drop_last())
    }
}

/// Trimming a trimmed end changes nothing.
pub proof fn lemma_trim_end_twice(s: Seq<char>)
    ensures
        trim_end(trim_end(s)) == trim_end(s),
    decreases s.len(),
{
    if s.len() > 0 && is_white(s.last()) {
        lemma_trim_end_twice(s.drop_last());
    }
}

/// `s` without the white space at both ends.
pub open spec fn trim(s: Seq<char>) -> Seq<char> {
    trim_end(trim_start(s))
}

/// The index of the first character of `s` that is not white space.
pub fn white_prefix(s: &[char]) -> (r: usize)
    ensures
        r <= s@.len(),
        trim_start(s@) == s@.skip(r as int),
        forall|i: int| 0 <= i < r ==> is_white(s@[i]),
        r < s@.len() ==> !is_white(s@[r as int]),
        r == lead_white(s@),
{
    let mut i: usize = 0;
    proof {
        assert(s@.skip(0) =~= s@);
    }
    while i < s.len() && char_is_white(s[i])
        invariant
            0 <= i <= s@.len(),
            trim_start(s@) == trim_start(s@.skip(i as int)),
            lead_white(s@) == i + lead_white(s@.skip(i as int)),
            forall|j: int| 0 <= j < i ==> is_white(s@[j]),
        decreases s@.len() - i,
    {
        proof {
            assert(s@.skip(i as int).skip(1) =~= s@.skip(i + 1));
        }
        i += 1;
    }
    i
}

/// The index after the last character of `s[from..]` that is not white
/// space, or `from` where there is none.
pub fn white_suffix(s: &[char], from: usize) -> (r: usize)
    requires
        from <= s@.len(),
    ensures
        from <= r <= s@.len(),
        trim_end(s@.skip(from as int)) == s@.subrange(from as int, r as int),
{
    let mut e: usize = s.len();
    proof {
        assert(s@.skip(from as int) =~= s@.subrange(from as int, e as int));
    }
    while e > from && char_is_white(s[e - 1])
        invariant
            from <= e <= s@.len(),
            trim_end(s@.skip(from as int)) == trim_end(s@.subrange(from as int, e as int)),
        decreases e,
    {
        proof {
            assert(s@.subrange(from as int, e as int).drop_last() =~= s@.subrange(
                from as int,
                e - 1,
            ));
        }
        e -= 1;
    }
    e
}

/// `s` without the white space at both ends.
pub fn str_trim(s: &str) -> (r: String)
    ensures
        r@ == trim(s@),
{
    let sc = chars_of(s);
    let a = white_prefix(sc.as_slice());
    let b = white_suffix(sc.as_slice(), a);
    string_of(sc.as_slice(), a, b)
}

/// `s` without the white space at its end.
pub fn str_trim_end(s: &str) -> (r: String)
    ensures
        r@ == trim_end(s@),
{
    let sc = chars_of(s);
    let b = white_suffix(sc.as_slice(), 0);
    proof {
        assert(s@.skip(0) =~= s@);
    }
    string_of(sc.as_slice(), 0, b)
}

/// Whether `s` holds nothing but white space.
pub fn is_blank(s: &str) -> (r: bool)
    ensures
        r == (trim(s@).len() == 0),
{
    str_trim(s).as_str().is_empty()
}

// ---------------------------------------------------------------------------
// Lines and parts
// ---------------------------------------------------------------------------

/// How many characters of `s` stand before its first `c`; all of them where
/// `c` does not occur.
pub open spec fn until(s: Seq<char>, c: char) -> nat
    decreases s.len(),
{
    if s.len() == 0 || s[0] == c {
        0
    } else {
        1 + until(s.skip(1), c)
    }
}

/// `until` is the first index of `c`.
pub proof fn lemma_until(s: Seq<char>, c: char)
    ensures
        until(s, c) <= s.len(),
        until(s, c) < s.len() ==> s[until(s, c) as int] == c,
        forall|i: int| 0 <= i < until(s, c) ==> s[i] != c,
    decreases s.len(),
{
    if s.len() > 0 && s[0] != c {
        lemma_until(s.skip(1), c);
        assert forall|i: int| 0 <= i < until(s, c) implies s[i] != c by {
            if i > 0 {
                assert(s.skip(1)[i - 1] == s[i]);
            }
        }
    }
}

/// `line` without a carriage return at its end.
pub open spec fn strip_cr(line: Seq<char>) -> Seq<char> {
    if line.len() > 0 && line.last() == '\r' {
        line.drop_last()
    } else {
        line
    }
}

/// The lines of `s`: each ends at a line feed or at the end of the text, a
/// carriage return before the line feed belongs to the line end, and a line
/// feed at the very end opens no further line.
pub open spec fn lines(s: Seq<char>) -> Seq<Seq<char>>
    decreases s.len(),
{
    if s.len() == 0 {
        Seq::empty()
    } else {
        let n = until(s, '\n') as int;
        if n < s.len() {
            seq![strip_cr(s.take(n))] + lines(s.skip(n + 1))
        } else {
            seq![s]
        }
    }
}

/// The parts of `s` between its occurrences of `c`; there is always one.
pub open spec fn split_on(s: Seq<char>, c: char) -> Seq<Seq<char>>
    decreases s.len(),
{
    let n = until(s, c) as int;
    if n < s.len() {
        seq![s.take(n)] + split_on(s.skip(n + 1), c)
    } else {
        seq![s]
    }
}

/// The first index at or after `from` that holds `c`, or the length.
pub fn until_at(s: &[char], c: char, from: usize) -> (r: usize)
    requires
        from <= s@.len(),
    ensures
        from <= r <= s@.len(),
        r == from + until(s@.skip(from as int), c),
{
    let mut i: usize = from;
    while i < s.len() && s[i] != c
        invariant
            from <= i <= s@.len(),
            from + until(s@.skip(from as int), c) == i + until(s@.skip(i as int), c),
        decreases s@.len() - i,
    {
        proof {
            assert(s@.skip(i as int).skip(1) =~= s@.skip(i + 1));
        }
        i += 1;
    }
    i
}

/// The lines of `s`.
pub fn str_lines(s: &str) -> (r: Vec<String>)
    ensures
        texts(r@) == lines(s@),
{
    let sc = chars_of(s);
    let n: usize = sc.len();
    let mut r: Vec<String> = Vec::new();
    let mut at: usize = 0;
    proof {
        assert(s@.skip(0) =~= s@);
        assert(texts(r@) + lines(s@) =~= lines(s@));
    }
    while at < n
        invariant
            sc@ == s@,
            n == s@.len(),
            at <= n,
            texts(r@) + lines(s@.skip(at as int)) == lines(s@),
        decreases n - at,
    {
        let e = until_at(sc.as_slice(), '\n', at);
        let ghost rest = s@.skip(at as int);
        let ghost before = r@;
        if e < n {
            let stop: usize = if e > at && sc[e - 1] == '\r' {
                e - 1
            } else {
                e
            };
            let line = string_of(sc.as_slice(), at, stop);
            proof {
                assert(rest.take(e - at) =~= s@.subrange(at as int, e as int));
                assert(strip_cr(rest.take(e - at)) =~= line@);
                assert(rest.skip(e - at + 1) =~= s@.skip(e + 1));
            }
            r.push(line);
            at = e + 1;
            proof {
                assert(texts(r@) =~= texts(before).push(line@));
                assert(texts(before) + (seq![line@] + lines(s@.skip(at as int))) =~= texts(r@)
                    + lines(s@.skip(at as int)));
            }
        } else {
            let line = string_of(sc.as_slice(), at, n);
            proof {
                assert(line@ =~= rest);
            }
            r.push(line);
            at = n;
            proof {
                assert(texts(r@) =~= texts(before).push(line@));
                assert(texts(before) + seq![line@] =~= texts(r@) + lines(s@.skip(at as int)));
            }
        }
    }
    proof {
        assert(texts(r@) + lines(s@.skip(at as int)) =~= texts(r@));
    }
    r
}

/// The parts of `s` between its occurrences of `c`.
pub fn str_split(s: &str, c: char) -> (r: Vec<String>)
    ensures
        texts(r@) == split_on(s@, c),
        r@.len() > 0,
{
    let sc = chars_of(s);
    let n: usize = sc.len();
    let mut r: Vec<String> = Vec::new();
    let mut at: usize = 0;
    proof {
        assert(s@.skip(0) =~= s@);
        assert(texts(r@) + split_on(s@, c) =~= split_on(s@, c));
    }
    loop
        invariant
            sc@ == s@,
            n == s@.len(),
            at <= n,
            texts(r@) + split_on(s@.skip(at as int), c) == split_on(s@, c),
        decreases n + 1 - at,
    {
        let e = until_at(sc.as_slice(), c, at);
        let ghost rest = s@.skip(at as int);
        let ghost before = r@;
        let part = string_of(sc.as_slice(), at, e);
        r.push(part);
        proof {
            assert(rest.take(e - at) =~= part@);
            assert(texts(r@) =~= texts(before).push(part@));
        }
        if e < n {
            proof {
                assert(rest.skip(e - at + 1) =~= s@.skip(e + 1));
            }
            at = e + 1;
            proof {
                assert(texts(before) + (seq![part@] + split_on(s@.skip(at as int), c)) =~= texts(r@)
                    + split_on(s@.skip(at as int), c));
            }
        } else {
            proof {
                assert(rest =~= part@);
                assert(texts(before) + seq![part@] =~= texts(r@));
            }
            return r;
        }
    }
}

/// The parts of `s` between the occurrences of `sep`, found from left to
/// right; there is always one. `sep` is not empty.
pub open spec fn split_str(s: Seq<char>, sep: Seq<char>) -> Seq<Seq<char>>
    decreases s.len(),
{
    match find_from(s, sep, 0) {
        Some(i) if 0 <= i && sep.len() > 0 && i + sep.len() <= s.len() => seq![s.take(i)]
            + split_str(s.skip(i + sep.len()), sep),
        _ => seq![s],
    }
}

/// The parts of `s` between the occurrences of `sep`.
pub fn str_split_str(s: &str, sep: &str) -> (r: Vec<String>)
    requires
        sep@.len() > 0,
    ensures
        texts(r@) == split_str(s@, sep@),
        r@.len() > 0,
{
    let sc = chars_of(s);
    let pc = chars_of(sep);
    let n: usize = sc.len();
    let mut r: Vec<String> = Vec::new();
    let mut at: usize = 0;
    proof {
        assert(s@.skip(0) =~= s@);
        assert(texts(r@) + split_str(s@, sep@) =~= split_str(s@, sep@));
    }
    loop
        invariant
            n == s@.len(),
            sc@ == s@,
            pc@ == sep@,
            sep@.len() > 0,
            0 <= at <= s@.len(),
            texts(r@) + split_str(s@.skip(at as int), sep@) == split_str(s@, sep@),
        decreases s@.len() - at,
    {
        let hit = find_at(sc.as_slice(), pc.as_slice(), at);
        let ghost rest = s@.skip(at as int);
        let ghost before = r@;
        proof {
            lemma_find_shift(s@, sep@, at as int, 0);
            lemma_find_from(s@, sep@, at as int);
        }
        match hit {
            Some(i) => {
                let part = string_of(sc.as_slice(), at, i);
                proof {
                    assert(rest.take(i - at) =~= part@);
                    assert(rest.skip(i - at + sep@.len()) =~= s@.skip(i + sep@.len()));
                }
                r.push(part);
                at = i + pc.len();
                proof {
                    assert(texts(r@) =~= texts(before).push(part@));
                    assert(texts(before) + (seq![part@] + split_str(s@.skip(at as int), sep@))
                        =~= texts(r@) + split_str(s@.skip(at as int), sep@));
                }
            },
            None => {
                let part = string_of(sc.as_slice(), at, n);
                proof {
                    assert(rest =~= part@);
                }
                r.push(part);
                proof {
                    assert(texts(r@) =~= texts(before).push(part@));
                    assert(texts(before) + seq![part@] =~= texts(r@));
                }
                return r;
            },
        }
    }
}

/// `parts` in order, with `sep` between each two of them.
pub open spec fn join(parts: Seq<Seq<char>>, sep: Seq<char>) -> Seq<char>
    decreases parts.len(),
{
    if parts.len() == 0 {
        Seq::empty()
    } else if parts.len() == 1 {
        parts[0]
    } else {
        join(parts.drop_last(), sep) + sep + parts.last()
    }
}

/// `parts` in order, with `sep` between each two of them.
pub fn str_join(parts: &Vec<String>, sep: &str) -> (r: String)
    ensures
        r@ == join(texts(parts@), sep@),
{
    let mut r = String::new();
    let mut i: usize = 0;
    while i < parts.len()
        invariant
            0 <= i <= parts@.len(),
            r@ == join(texts(parts@).take(i as int), sep@),
        decreases parts@.len() - i,
    {
        if i > 0 {
            r.push_str(sep);
        }
        r.push_str(parts[i].as_str());
        proof {
            let t = texts(parts@).take(i + 1);
            assert(t.drop_last() =~= texts(parts@).take(i as int));
            assert(i == 0 ==> r@ =~= t[0]);
        }
        i += 1;
    }
    proof {
        assert(texts(parts@).take(i as int) =~= texts(parts@));
    }
    r
}

/// The characters of an optional string slice.
pub open spec fn opt_str(o: Option<&str>) -> Option<Seq<char>> {
    match o {
        Some(s) => Some(s@),
        None => None,
    }
}

/// Whether `s` is among the strings.
pub fn has_text(v: &Vec<String>, s: &str) -> (r: bool)
    ensures
        r == texts(v@).contains(s@),
{
    let ghost t = texts(v@);
    let mut i: usize = 0;
    while i < v.len()
        invariant
            0 <= i <= v@.len(),
            t == texts(v@),
            forall|k: int| 0 <= k < i ==> #[trigger] t[k] != s@,
        decreases v@.len() - i,
    {
        if str_eq(v[i].as_str(), s) {
            proof {
                assert(t[i as int] == s@);
            }
            return true;
        }
        i += 1;
    }
    false
}

// ---------------------------------------------------------------------------
// From the end, and without regard to case
// ---------------------------------------------------------------------------

/// The greatest index of a character.
pub open spec fn last_of(s: Seq<char>, c: char) -> Option<int>
    decreases s.len(),
{
    if s.len() == 0 {
        None
    } else if s.last() == c {
        Some(s.len() - 1)
    } else {
        last_of(s.drop_last(), c)
    }
}

/// `last_of` is an index of the character, and none that is greater is.
pub proof fn lemma_last_of(s: Seq<char>, c: char)
    ensures
        last_of(s, c) matches Some(k) ==> 0 <= k < s.len() && s[k] == c && forall|i: int|
            k < i < s.len() ==> #[trigger] s[i] != c,
        last_of(s, c) is None ==> forall|i: int| 0 <= i < s.len() ==> #[trigger] s[i] != c,
    decreases s.len(),
{
    if s.len() > 0 && s.last() != c {
        lemma_last_of(s.drop_last(), c);
        assert forall|i: int| 0 <= i < s.len() implies #[trigger] s[i] == (if i < s.len() - 1 {
            s.drop_last()[i]
        } else {
            s.last()
        }) by {}
    }
}

/// The greatest index of a character.
pub fn last_at(s: &[char], c: char) -> (r: Option<usize>)
    ensures
        last_of(s@, c) == (match r {
            Some(k) => Some(k as int),
            None => None::<int>,
        }),
        r matches Some(k) ==> k < s@.len(),
{
    let mut i: usize = s.len();
    proof {
        assert(s@.take(i as int) =~= s@);
    }
    while i > 0
        invariant
            0 <= i <= s@.len(),
            last_of(s@, c) == last_of(s@.take(i as int), c),
        decreases i,
    {
        proof {
            assert(s@.take(i as int).drop_last() =~= s@.take(i - 1));
            assert(s@.take(i as int).last() == s@[i - 1]);
        }
        i -= 1;
        if s[i] == c {
            return Some(i);
        }
    }
    None
}

/// A text without any number of copies of `p` at its end.
pub open spec fn strip_ends(s: Seq<char>, p: Seq<char>) -> Seq<char>
    decreases s.len(),
{
    if p.len() > 0 && ends_with(s, p) {
        strip_ends(s.take(s.len() - p.len()), p)
    } else {
        s
    }
}

/// A text without any number of copies of `p` at its end.
pub fn str_strip_ends(s: &str, p: &str) -> (r: String)
    ensures
        r@ == strip_ends(s@, p@),
{
    let sc = chars_of(s);
    let pc = chars_of(p);
    let m: usize = pc.len();
    let mut n: usize = sc.len();
    proof {
        assert(s@.take(n as int) =~= s@);
    }
    while m > 0 && n >= m && matches_at(sc.as_slice(), pc.as_slice(), n - m)
        invariant
            n <= sc@.len(),
            sc@ == s@,
            pc@ == p@,
            m == pc@.len(),
            strip_ends(s@, p@) == strip_ends(s@.take(n as int), p@),
        decreases n,
    {
        proof {
            let t = s@.take(n as int);
            assert(t.subrange(n - m, n as int) =~= s@.subrange(n - m, n as int));
            assert(t.take(n - m) =~= s@.take(n - m));
        }
        n -= m;
    }
    proof {
        let t = s@.take(n as int);
        if m > 0 && n >= m {
            assert(t.subrange(n - m, n as int) =~= s@.subrange(n - m, n as int));
        }
    }
    let r = string_of(sc.as_slice(), 0, n);
    proof {
        assert(r@ =~= s@.take(n as int));
    }
    r
}

/// A character with the ASCII capitals turned into small letters.
pub open spec fn ascii_small(c: char) -> int {
    let u = c as u32;
    if 65 <= u <= 90 {
        u + 32
    } else {
        u as int
    }
}

/// Whether two texts differ in the case of ASCII letters at most.
pub open spec fn same_but_case(a: Seq<char>, b: Seq<char>) -> bool {
    &&& a.len() == b.len()
    &&& forall|i: int| 0 <= i < a.len() ==> ascii_small(#[trigger] a[i]) == ascii_small(b[i])
}

fn small_code(c: char) -> (r: u32)
    ensures
        r == ascii_small(c),
{
    let u: u32 = c as u32;
    if 65 <= u && u <= 90 {
        u + 32
    } else {
        u
    }
}

/// Whether two texts differ in the case of ASCII letters at most.
pub fn eq_but_case(a: &str, b: &str) -> (r: bool)
    ensures
        r == same_but_case(a@, b@),
{
    let ac = chars_of(a);
    let bc = chars_of(b);
    if ac.len() != bc.len() {
        return false;
    }
    let mut i: usize = 0;
    while i < ac.len()
        invariant
            0 <= i <= ac@.len() == bc@.len(),
            ac@ == a@,
            bc@ == b@,
            forall|k: int| 0 <= k < i ==> ascii_small(#[trigger] a@[k]) == ascii_small(b@[k]),
        decreases ac@.len() - i,
    {
        if small_code(ac[i]) != small_code(bc[i]) {
            proof {
                assert(ascii_small(a@[i as int]) != ascii_small(b@[i as int]));
            }
            return false;
        }
        i += 1;
    }
    true
}

// ---------------------------------------------------------------------------
// Lengths in bytes
// ---------------------------------------------------------------------------

/// How many bytes `c` takes in UTF-8.
pub open spec fn width(c: char) -> nat {
    let u = c as u32;
    if u < 0x80 {
        1
    } else if u < 0x800 {
        2
    } else if u < 0x10000 {
        3
    } else {
        4
    }
}

/// How many bytes `c` takes in UTF-8.
pub fn char_width(c: char) -> (r: usize)
    ensures
        r == width(c),
{
    let u: u32 = c as u32;
    if u < 0x80 {
        1
    } else if u < 0x800 {
        2
    } else if u < 0x10000 {
        3
    } else {
        4
    }
}

/// How many bytes `s` takes in UTF-8.
pub open spec fn byte_len(s: Seq<char>) -> nat
    decreases s.len(),
{
    if s.len() == 0 {
        0
    } else {
        byte_len(s.drop_last()) + width(s.last())
    }
}

/// The bytes of a text are those of its first character and those of the rest.
proof fn lemma_byte_len_first(s: Seq<char>)
    requires
        s.len() > 0,
    ensures
        byte_len(s) == width(s[0]) + byte_len(s.drop_first()),
    decreases s.len(),
{
    if s.len() == 1 {
        assert(s.drop_last() =~= s.drop_first());
    } else {
        lemma_byte_len_first(s.drop_last());
        assert(s.drop_last().drop_first() =~= s.drop_first().drop_last());
    }
}

/// `byte_len` is the length of the UTF-8 encoding.
proof fn lemma_byte_len_encoding(s: Seq<char>)
    ensures
        vstd::utf8::encode_utf8(s).len() == byte_len(s),
    decreases s.len(),
{
    if s.len() > 0 {
        lemma_byte_len_first(s);
        lemma_byte_len_encoding(s.drop_first());
        vstd::utf8::char_is_scalar(s[0]);
        vstd::utf8::char_u32_cast(s[0], s[0] as u32);
    }
}

/// How many bytes `s` takes in UTF-8.
pub fn str_byte_len(s: &str) -> (r: usize)
    ensures
        r == byte_len(s@),
{
    proof {
        lemma_byte_len_encoding(s@);
    }
    s.as_bytes().len()
}

/// How many characters of `s` fit, from its start, into `max` bytes.
pub open spec fn floor_chars(s: Seq<char>, max: nat) -> nat
    decreases s.len(),
{
    if byte_len(s) <= max || s.len() == 0 {
        s.len()
    } else {
        floor_chars(s.drop_last(), max)
    }
}

/// The longest prefix of `s` of at most `max` bytes.
pub open spec fn floor_prefix(s: Seq<char>, max: nat) -> Seq<char> {
    s.take(floor_chars(s, max) as int)
}

/// A prefix takes no more bytes than the whole, and at least one per character.
pub proof fn lemma_byte_len_take(s: Seq<char>, k: int)
    requires
        0 <= k <= s.len(),
    ensures
        byte_len(s.take(k)) + (s.len() - k) <= byte_len(s),
        k <= byte_len(s.take(k)),
    decreases s.len(),
{
    if k == s.len() {
        assert(s.take(k) =~= s);
        if k > 0 {
            lemma_byte_len_take(s.drop_last(), k - 1);
            assert(s.drop_last().take(k - 1) =~= s.drop_last());
        }
    } else {
        lemma_byte_len_take(s.drop_last(), k);
        assert(s.drop_last().take(k) =~= s.take(k));
    }
}

/// The longest prefix within a byte limit is within it, and one more
/// character would not be.
pub proof fn lemma_floor_chars(s: Seq<char>, max: nat)
    ensures
        floor_chars(s, max) <= s.len(),
        byte_len(floor_prefix(s, max)) <= max,
        floor_chars(s, max) < s.len() ==> byte_len(s.take(floor_chars(s, max) as int + 1)) > max,
        floor_chars(s, max) == s.len() <==> byte_len(s) <= max,
    decreases s.len(),
{
    if byte_len(s) <= max || s.len() == 0 {
        assert(s.take(s.len() as int) =~= s);
    } else {
        let t = s.drop_last();
        lemma_floor_chars(t, max);
        let k = floor_chars(t, max) as int;
        assert(t.take(k) =~= s.take(k));
        if k < t.len() {
            assert(t.take(k + 1) =~= s.take(k + 1));
        } else {
            assert(s.take(k + 1) =~= s);
        }
    }
}

/// Where a prefix fits and the next character does not, that is the longest.
proof fn lemma_floor_chars_at(s: Seq<char>, max: nat, k: int)
    requires
        0 <= k <= s.len(),
        byte_len(s.take(k)) <= max,
        k < s.len() ==> byte_len(s.take(k + 1)) > max,
    ensures
        floor_chars(s, max) == k,
    decreases s.len(),
{
    if k == s.len() {
        assert(s.take(k) =~= s);
    } else {
        lemma_byte_len_take(s, k + 1);
        let t = s.drop_last();
        assert(t.take(k) =~= s.take(k));
        if k < t.len() {
            assert(t.take(k + 1) =~= s.take(k + 1));
        }
        lemma_floor_chars_at(t, max, k);
    }
}

/// How many characters of `s` fit, from its start, into `max` bytes.
pub fn floor_chars_of(s: &[char], max: usize) -> (r: usize)
    ensures
        r <= s@.len(),
        r == floor_chars(s@, max as nat),
{
    let mut used: usize = 0;
    let mut i: usize = 0;
    while i < s.len()
        invariant
            0 <= i <= s@.len(),
            used == byte_len(s@.take(i as int)),
            used <= max,
        decreases s@.len() - i,
    {
        let w = char_width(s[i]);
        proof {
            assert(s@.take(i + 1).drop_last() =~= s@.take(i as int));
        }
        if max - used < w {
            proof {
                lemma_floor_chars_at(s@, max as nat, i as int);
            }
            return i;
        }
        used += w;
        i += 1;
    }
    proof {
        lemma_floor_chars_at(s@, max as nat, i as int);
    }
    i
}

/// Whether `s` takes at most `max` bytes.
pub fn fits_bytes(s: &str, max: usize) -> (r: bool)
    ensures
        r == (byte_len(s@) <= max),
{
    let sc = chars_of(s);
    proof {
        lemma_floor_chars(s@, max as nat);
    }
    floor_chars_of(sc.as_slice(), max) == sc.len()
}

/// The longest prefix of `s` of at most `max` bytes.
pub fn str_floor_prefix(s: &str, max: usize) -> (r: String)
    ensures
        r@ == floor_prefix(s@, max as nat),
{
    let sc = chars_of(s);
    let k = floor_chars_of(sc.as_slice(), max);
    string_of(sc.as_slice(), 0, k)
}

/// A text of at most `max` bytes: a longer one is cut and gets dots.
pub open spec fn ellipsized(s: Seq<char>, max: nat) -> Seq<char> {
    if byte_len(s) <= max {
        s
    } else {
        floor_prefix(s, max) + "..."@
    }
}

/// A text of at most `max` bytes: a longer one is cut and gets dots.
pub fn str_ellipsis(s: &str, max: usize) -> (r: String)
    ensures
        r@ == ellipsized(s@, max as nat),
{
    if fits_bytes(s, max) {
        s.to_owned()
    } else {
        let mut r = str_floor_prefix(s, max);
        r.push_str("...");
        r
    }
}

/// The first `max` characters of `s`, or all of it where it is shorter.
pub open spec fn take_chars(s: Seq<char>, max: nat) -> Seq<char> {
    if s.len() <= max {
        s
    } else {
        s.take(max as int)
    }
}

/// The first `max` characters of `s`, or all of it where it is shorter.
pub fn str_take_chars(s: &str, max: usize) -> (r: String)
    ensures
        r@ == take_chars(s@, max as nat),
{
    let sc = chars_of(s);
    let k: usize = if sc.len() <= max {
        sc.len()
    } else {
        max
    };
    string_of(sc.as_slice(), 0, k)
}

// ---------------------------------------------------------------------------
// Numbers
// ---------------------------------------------------------------------------

/// The decimal digit of value `d`.
pub open spec fn digit(d: nat) -> char {
    (48 + d) as char
}

/// `n` in decimal.
pub open spec fn dec(n: nat) -> Seq<char>
    decreases n,
{
    if n < 10 {
        seq![digit(n)]
    } else {
        dec(n / 10).push(digit(n % 10))
    }
}

/// `n` in decimal.
pub fn decimal(n: u128) -> (r: String)
    ensures
        r@ == dec(n as nat),
    decreases n,
{
    let d: u8 = (n % 10) as u8;
    let c: char = (48 + d) as char;
    let mut r = if n < 10 {
        String::new()
    } else {
        decimal(n / 10)
    };
    r.push(c);
    r
}

/// `n` in decimal.
pub fn decimal_usize(n: usize) -> (r: String)
    ensures
        r@ == dec(n as nat),
{
    decimal(n as u128)
}

/// Whether `c` is a decimal digit.
pub open spec fn is_digit(c: char) -> bool {
    '0' as u32 <= c as u32 <= '9' as u32
}

/// The number that a text of decimal digits denotes.
pub open spec fn value_of(s: Seq<char>) -> nat
    decreases s.len(),
{
    if s.len() == 0 {
        0
    } else {
        value_of(s.drop_last()) * 10 + ((s.last() as u32 - '0' as u32) as nat)
    }
}

/// The number that a text denotes, where it is one or more decimal digits.
pub open spec fn number(s: Seq<char>) -> Option<nat> {
    if s.len() > 0 && (forall|i: int| 0 <= i < s.len() ==> is_digit(#[trigger] s[i])) {
        Some(value_of(s))
    } else {
        None
    }
}

/// A number in decimal is read as that number.
pub proof fn lemma_dec_is_read(n: nat)
    ensures
        number(dec(n)) == Some(n),
    decreases n,
{
    vstd::utf8::char_u32_cast('0', '0' as u32);
    if n < 10 {
        let s = dec(n);
        assert(s.drop_last() =~= Seq::empty());
        assert(value_of(s.drop_last()) == 0);
    } else {
        lemma_dec_is_read(n / 10);
        let s = dec(n);
        assert(s.drop_last() =~= dec(n / 10));
        assert forall|i: int| 0 <= i < s.len() implies is_digit(#[trigger] s[i]) by {
            if i < s.len() - 1 {
                assert(s[i] == dec(n / 10)[i]);
            }
        }
    }
}

/// The number that a text denotes, where it is one or more decimal digits and
/// the number fits.
pub fn parse_u64(s: &str) -> (r: Option<u64>)
    ensures
        (match r {
            Some(n) => Some(n as nat),
            None => None,
        }) == (match number(s@) {
            Some(n) => if n <= u64::MAX {
                Some(n)
            } else {
                None
            },
            None => None,
        }),
{
    let sc = chars_of(s);
    if sc.len() == 0 {
        return None;
    }
    let mut n: u64 = 0;
    let mut fits = true;
    let mut i: usize = 0;
    while i < sc.len()
        invariant
            0 <= i <= sc@.len(),
            sc@ == s@,
            forall|k: int| 0 <= k < i ==> is_digit(#[trigger] s@[k]),
            fits ==> n == value_of(s@.take(i as int)),
            !fits ==> value_of(s@.take(i as int)) > u64::MAX,
        decreases sc@.len() - i,
    {
        let u: u32 = sc[i] as u32;
        if u < 48 || u > 57 {
            proof {
                assert(!is_digit(s@[i as int]));
            }
            return None;
        }
        let d: u64 = (u - 48) as u64;
        proof {
            let t = s@.take(i + 1);
            assert(t.drop_last() =~= s@.take(i as int));
            assert(t.last() == s@[i as int]);
        }
        if fits {
            if n > u64::MAX / 10 || n * 10 > u64::MAX - d {
                fits = false;
            } else {
                n = n * 10 + d;
            }
        }
        i += 1;
    }
    proof {
        assert(s@.take(i as int) =~= s@);
    }
    if fits {
        Some(n)
    } else {
        None
    }
}

// ---------------------------------------------------------------------------
// Words and case
// ---------------------------------------------------------------------------

/// How many characters `s` begins with that are not white space.
pub open spec fn lead_black(s: Seq<char>) -> nat
    decreases s.len(),
{
    if s.len() == 0 || is_white(s[0]) {
        0
    } else {
        1 + lead_black(s.skip(1))
    }
}

proof fn lemma_lead(s: Seq<char>)
    ensures
        lead_white(s) <= s.len(),
        lead_black(s) <= s.len(),
        s.len() > 0 ==> lead_white(s) > 0 || lead_black(s) > 0,
    decreases s.len(),
{
    if s.len() > 0 {
        lemma_lead(s.skip(1));
    }
}

/// The words of `s`: its longest runs without white space, in order.
pub open spec fn words(s: Seq<char>) -> Seq<Seq<char>>
    decreases s.len(),
    via words_decreases
{
    let w = lead_white(s) as int;
    let b = lead_black(s) as int;
    if s.len() == 0 {
        Seq::empty()
    } else if w > 0 {
        words(s.skip(w))
    } else {
        seq![s.take(b)] + words(s.skip(b))
    }
}

#[via_fn]
proof fn words_decreases(s: Seq<char>) {
    lemma_lead(s);
}

/// The words of `s`.
pub fn str_words(s: &str) -> (r: Vec<String>)
    ensures
        texts(r@) == words(s@),
{
    let sc = chars_of(s);
    let n: usize = sc.len();
    let mut r: Vec<String> = Vec::new();
    let mut at: usize = 0;
    proof {
        assert(s@.skip(0) =~= s@);
        assert(texts(r@) + words(s@) =~= words(s@));
    }
    while at < n
        invariant
            sc@ == s@,
            n == s@.len(),
            at <= n,
            texts(r@) + words(s@.skip(at as int)) == words(s@),
        decreases n - at,
    {
        let ghost rest = s@.skip(at as int);
        let ghost before = r@;
        let start: usize = at;
        let white = char_is_white(sc[at]);
        let mut e: usize = at;
        while e < n && char_is_white(sc[e]) == white
            invariant
                sc@ == s@,
                n == s@.len(),
                start <= e <= n,
                start < n,
                white == is_white(s@[start as int]),
                e == start ==> e < n,
                white ==> lead_white(s@.skip(start as int)) == e - start + lead_white(
                    s@.skip(e as int),
                ),
                !white ==> lead_black(s@.skip(start as int)) == e - start + lead_black(
                    s@.skip(e as int),
                ),
            ensures
                start < e <= n,
                white ==> lead_white(s@.skip(start as int)) == e - start,
                !white ==> lead_black(s@.skip(start as int)) == e - start,
            decreases n - e,
        {
            proof {
                assert(s@.skip(e as int).skip(1) =~= s@.skip(e + 1));
            }
            e += 1;
        }
        proof {
            assert(rest.skip(e - start) =~= s@.skip(e as int));
        }
        if !white {
            let word = string_of(sc.as_slice(), start, e);
            proof {
                assert(rest.take(e - start) =~= word@);
            }
            r.push(word);
            proof {
                assert(texts(r@) =~= texts(before).push(word@));
                assert(texts(before) + (seq![word@] + words(s@.skip(e as int))) =~= texts(r@)
                    + words(s@.skip(e as int)));
            }
        }
        at = e;
    }
    proof {
        assert(texts(r@) + words(s@.skip(at as int)) =~= texts(r@));
    }
    r
}

/// What `str::to_lowercase` of std makes of a text.
pub uninterp spec fn lowercased(s: Seq<char>) -> Seq<char>;

/// `str::to_lowercase` of std, by the Unicode rules. The contract names the
/// result and says no more of it.
pub assume_specification[ str::to_lowercase ](s: &str) -> (r: String)
    ensures
        r@ == lowercased(s@),
;

/// What `str::to_uppercase` of std makes of a text.
pub uninterp spec fn uppercased(s: Seq<char>) -> Seq<char>;

/// `str::to_uppercase` of std, by the Unicode rules. The contract names the
/// result and says no more of it.
pub assume_specification[ str::to_uppercase ](s: &str) -> (r: String)
    ensures
        r@ == uppercased(s@),
;

// ---------------------------------------------------------------------------
// Laws
// ---------------------------------------------------------------------------

/// What stands between two texts occurs in the whole.
pub proof fn lemma_contains_part(a: Seq<char>, p: Seq<char>, b: Seq<char>)
    ensures
        contains(a + p + b, p),
{
    let s = a + p + b;
    assert(s.subrange(a.len() as int, (a.len() + p.len()) as int) =~= p);
    assert(occurs_at(s, p, a.len() as int));
}

/// What occurs in a part of a text occurs in the text.
pub proof fn lemma_contains_within(s: Seq<char>, t: Seq<char>, p: Seq<char>)
    requires
        contains(s, t),
        contains(t, p),
    ensures
        contains(s, p),
{
    let i = choose|i: int| occurs_at(s, t, i);
    let j = choose|j: int| occurs_at(t, p, j);
    assert(s.subrange(i + j, i + j + p.len()) =~= s.subrange(i, i + t.len()).subrange(
        j,
        j + p.len(),
    ));
    assert(occurs_at(s, p, i + j));
}

/// A text occurs in itself.
pub proof fn lemma_contains_itself(s: Seq<char>)
    ensures
        contains(s, s),
{
    assert(s.subrange(0, s.len() as int) =~= s);
    assert(occurs_at(s, s, 0));
}

/// Each part occurs in what the parts are joined to.
pub proof fn law_joined_text_holds_every_part(parts: Seq<Seq<char>>, sep: Seq<char>, i: int)
    requires
        0 <= i < parts.len(),
    ensures
        contains(join(parts, sep), parts[i]),
    decreases parts.len(),
{
    if parts.len() == 1 {
        lemma_contains_itself(parts[0]);
    } else {
        let p = parts.drop_last();
        let whole = join(parts, sep);
        if i < p.len() {
            law_joined_text_holds_every_part(p, sep, i);
            let j = join(p, sep);
            assert(whole =~= Seq::<char>::empty() + j + (sep + parts.last()));
            lemma_contains_part(Seq::empty(), j, sep + parts.last());
            lemma_contains_within(whole, j, parts[i]);
        } else {
            assert(whole =~= (join(p, sep) + sep) + parts.last() + Seq::<char>::empty());
            lemma_contains_part(join(p, sep) + sep, parts.last(), Seq::empty());
        }
    }
}

proof fn lemma_trim_start(s: Seq<char>)
    ensures
        ({
            let k = s.len() - trim_start(s).len();
            &&& 0 <= k
            &&& trim_start(s) == s.skip(k)
            &&& forall|i: int| 0 <= i < k ==> is_white(#[trigger] s[i])
            &&& k < s.len() ==> !is_white(s[k])
        }),
    decreases s.len(),
{
    if s.len() > 0 && is_white(s[0]) {
        let t = s.skip(1);
        lemma_trim_start(t);
        let k = s.len() - trim_start(s).len();
        assert(trim_start(s) =~= s.skip(k));
        assert forall|i: int| 0 <= i < k implies is_white(#[trigger] s[i]) by {
            if i > 0 {
                assert(t[i - 1] == s[i]);
            }
        }
    } else {
        assert(s.skip(0) =~= s);
    }
}

proof fn lemma_trim_end(s: Seq<char>)
    ensures
        ({
            let k = trim_end(s).len() as int;
            &&& k <= s.len()
            &&& trim_end(s) == s.take(k)
            &&& forall|i: int| k <= i < s.len() ==> is_white(#[trigger] s[i])
            &&& k > 0 ==> !is_white(s[k - 1])
        }),
    decreases s.len(),
{
    if s.len() > 0 && is_white(s.last()) {
        let t = s.drop_last();
        lemma_trim_end(t);
        let k = trim_end(s).len() as int;
        assert(trim_end(s) =~= s.take(k));
        assert forall|i: int| k <= i < s.len() implies is_white(#[trigger] s[i]) by {
            if i < t.len() {
                assert(t[i] == s[i]);
            }
        }
    } else {
        assert(s.take(s.len() as int) =~= s);
    }
}

/// Trimming takes off white space at both ends, all of it, and nothing else.
pub proof fn law_trim_takes_off_white_space(s: Seq<char>)
    ensures
        exists|i: int, j: int|
            0 <= i <= j <= s.len() && trim(s) == #[trigger] s.subrange(i, j) && (forall|k: int|
                0 <= k < i || j <= k < s.len() ==> is_white(#[trigger] s[k])) && (i < j
                ==> !is_white(s[i]) && !is_white(s[j - 1])),
{
    let t = trim_start(s);
    lemma_trim_start(s);
    lemma_trim_end(t);
    let i = s.len() - t.len();
    let j = i + trim(s).len();
    assert(trim(s) =~= s.subrange(i, j));
    assert forall|k: int| 0 <= k < i || j <= k < s.len() implies is_white(#[trigger] s[k]) by {
        if k >= i {
            assert(t[k - i] == s[k]);
        }
    }
    if i < j {
        assert(t[j - 1 - i] == s[j - 1]);
    }
    assert(trim(s) == s.subrange(i, j));
}

/// What is left of a text that holds anything but white space is not empty,
/// and occurs in the text.
pub proof fn lemma_trim_black(s: Seq<char>, k: int)
    requires
        0 <= k < s.len(),
        !is_white(s[k]),
    ensures
        trim(s).len() > 0,
        contains(s, trim(s)),
{
    law_trim_takes_off_white_space(s);
    let (i, j) = choose|i: int, j: int|
        0 <= i <= j <= s.len() && trim(s) == #[trigger] s.subrange(i, j) && (forall|k: int|
            0 <= k < i || j <= k < s.len() ==> is_white(#[trigger] s[k])) && (i < j ==> !is_white(
            s[i],
        ) && !is_white(s[j - 1]));
    assert(occurs_at(s, trim(s), i));
}

/// A text that neither begins nor ends with white space is left as it is.
pub proof fn law_trimmed_text_stays(s: Seq<char>)
    requires
        s.len() > 0 ==> !is_white(s[0]) && !is_white(s.last()),
    ensures
        trim(s) == s,
{
}

/// The parts of a text, joined by what they were split at, are the text again;
/// joined by something else they are the text with it in its place.
pub proof fn law_split_text_is_joined_again(s: Seq<char>, sep: Seq<char>, by: Seq<char>)
    requires
        sep.len() > 0,
    ensures
        join(split_str(s, sep), sep) == s,
        replace_all(s, sep, by) == join(split_str(s, sep), by),
        split_str(s, sep).len() > 0,
    decreases s.len(),
{
    lemma_find_from(s, sep, 0);
    match find_from(s, sep, 0) {
        Some(i) => {
            let rest = s.skip(i + sep.len());
            law_split_text_is_joined_again(rest, sep, by);
            let parts = split_str(rest, sep);
            lemma_join_front(s.take(i), parts, sep);
            lemma_join_front(s.take(i), parts, by);
            assert(s.subrange(i, i + sep.len()) == sep);
            assert(s =~= s.take(i) + sep + rest);
        },
        None => {},
    }
}

proof fn lemma_join_front(a: Seq<char>, parts: Seq<Seq<char>>, sep: Seq<char>)
    requires
        parts.len() > 0,
    ensures
        join(seq![a] + parts, sep) == a + sep + join(parts, sep),
    decreases parts.len(),
{
    let all = seq![a] + parts;
    if parts.len() == 1 {
        assert(all.drop_last() =~= seq![a]);
        reveal_with_fuel(join, 3);
    } else {
        assert(all.drop_last() =~= seq![a] + parts.drop_last());
        lemma_join_front(a, parts.drop_last(), sep);
        assert(join(all, sep) =~= a + sep + join(parts, sep));
    }
}

/// The parts of a text between the occurrences of a character do not hold it,
/// and joined by it they are the text again.
pub proof fn law_parts_are_free_of_the_separator(s: Seq<char>, c: char)
    ensures
        split_on(s, c).len() > 0,
        forall|i: int| 0 <= i < split_on(s, c).len() ==> !(#[trigger] split_on(s, c)[i]).contains(c),
        join(split_on(s, c), seq![c]) == s,
    decreases s.len(),
{
    lemma_until(s, c);
    let n = until(s, c) as int;
    if n < s.len() {
        let rest = s.skip(n + 1);
        law_parts_are_free_of_the_separator(rest, c);
        let parts = split_on(rest, c);
        lemma_join_front(s.take(n), parts, seq![c]);
        assert(s =~= s.take(n) + seq![c] + rest);
        let all = split_on(s, c);
        assert forall|i: int| 0 <= i < all.len() implies !(#[trigger] all[i]).contains(c) by {
            if i > 0 {
                assert(all[i] == parts[i - 1]);
            }
        }
    }
}

/// Holds of what is not white space.
pub open spec fn black() -> spec_fn(char) -> bool {
    |c: char| !is_white(c)
}

/// Parts one behind the other.
pub open spec fn concat(parts: Seq<Seq<char>>) -> Seq<char> {
    join(parts, Seq::empty())
}

/// The words of a text are not empty and hold no white space, and one behind
/// the other they are all of the text but its white space.
pub proof fn law_words_are_all_but_white_space(s: Seq<char>)
    ensures
        forall|i: int|
            0 <= i < words(s).len() ==> (#[trigger] words(s)[i]).len() > 0 && forall|k: int|
                0 <= k < words(s)[i].len() ==> !is_white(#[trigger] words(s)[i][k]),
        concat(words(s)) == seqs::select(s, black()),
    decreases s.len(),
{
    if s.len() > 0 {
        lemma_lead(s);
        lemma_lead_kinds(s);
        let w = lead_white(s) as int;
        let b = lead_black(s) as int;
        if w > 0 {
            law_words_are_all_but_white_space(s.skip(w));
            assert(s =~= s.take(w) + s.skip(w));
            seqs::lemma_select_concat(s.take(w), s.skip(w), black());
            lemma_select_none(s.take(w));
            assert(seqs::select(s, black()) =~= seqs::select(s.skip(w), black()));
        } else {
            let rest = s.skip(b);
            law_words_are_all_but_white_space(rest);
            assert(s =~= s.take(b) + rest);
            seqs::lemma_select_concat(s.take(b), rest, black());
            lemma_select_whole(s.take(b));
            let all = words(s);
            let others = words(rest);
            if others.len() > 0 {
                lemma_join_front(s.take(b), others, Seq::empty());
            } else {
                assert(all =~= seq![s.take(b)]);
            }
            assert(concat(all) =~= s.take(b) + concat(others));
            assert forall|i: int| 0 <= i < all.len() implies (#[trigger] all[i]).len() > 0
                && forall|k: int| 0 <= k < all[i].len() ==> !is_white(#[trigger] all[i][k]) by {
                if i > 0 {
                    assert(all[i] == others[i - 1]);
                }
            }
        }
    } else {
        assert(concat(words(s)) =~= seqs::select(s, black()));
    }
}

proof fn lemma_lead_kinds(s: Seq<char>)
    ensures
        forall|i: int| 0 <= i < lead_white(s) ==> is_white(#[trigger] s[i]),
        forall|i: int| 0 <= i < lead_black(s) ==> !is_white(#[trigger] s[i]),
    decreases s.len(),
{
    if s.len() > 0 {
        let t = s.skip(1);
        lemma_lead_kinds(t);
        lemma_lead(s);
        assert forall|i: int| 0 <= i < lead_white(s) implies is_white(#[trigger] s[i]) by {
            if i > 0 {
                assert(t[i - 1] == s[i]);
            }
        }
        assert forall|i: int| 0 <= i < lead_black(s) implies !is_white(#[trigger] s[i]) by {
            if i > 0 {
                assert(t[i - 1] == s[i]);
            }
        }
    }
}

proof fn lemma_select_none(s: Seq<char>)
    requires
        forall|i: int| 0 <= i < s.len() ==> is_white(#[trigger] s[i]),
    ensures
        seqs::select(s, black()) == Seq::<char>::empty(),
    decreases s.len(),
{
    if s.len() > 0 {
        assert(is_white(s[0]));
        let t = s.skip(1);
        assert forall|i: int| 0 <= i < t.len() implies is_white(#[trigger] t[i]) by {
            assert(t[i] == s[i + 1]);
        }
        lemma_select_none(t);
    }
}

proof fn lemma_select_whole(s: Seq<char>)
    requires
        forall|i: int| 0 <= i < s.len() ==> !is_white(#[trigger] s[i]),
    ensures
        seqs::select(s, black()) == s,
    decreases s.len(),
{
    if s.len() > 0 {
        assert(!is_white(s[0]));
        let t = s.skip(1);
        assert forall|i: int| 0 <= i < t.len() implies !is_white(#[trigger] t[i]) by {
            assert(t[i] == s[i + 1]);
        }
        lemma_select_whole(t);
        assert(seq![s[0]] + t =~= s);
    } else {
        assert(seqs::select(s, black()) =~= s);
    }
}

/// The lines of a text hold no line feed; where there is no carriage return
/// and no line feed at the end they are the text again, joined by line feeds.
pub proof fn law_lines_are_the_text(s: Seq<char>)
    ensures
        forall|i: int| 0 <= i < lines(s).len() ==> !(#[trigger] lines(s)[i]).contains('\n'),
        !s.contains('\r') && s.len() > 0 && s.last() != '\n' ==> join(lines(s), seq!['\n']) == s
            && lines(s).len() > 0,
    decreases s.len(),
{
    if s.len() > 0 {
        lemma_until(s, '\n');
        let n = until(s, '\n') as int;
        if n < s.len() {
            let rest = s.skip(n + 1);
            let first = s.take(n);
            law_lines_are_the_text(rest);
            let all = lines(s);
            let others = lines(rest);
            assert forall|i: int| 0 <= i < all.len() implies !(#[trigger] all[i]).contains('\n') by {
                if i > 0 {
                    assert(all[i] == others[i - 1]);
                } else {
                    assert forall|k: int| 0 <= k < all[0].len() implies all[0][k] != '\n' by {
                        assert(all[0][k] == first[k]);
                    }
                }
            }
            if !s.contains('\r') && s.last() != '\n' {
                assert(rest.len() > 0 && rest.last() == s.last());
                assert forall|k: int| 0 <= k < rest.len() implies rest[k] != '\r' by {
                    assert(rest[k] == s[k + n + 1]);
                }
                if first.len() > 0 {
                    assert(first.last() == s[n - 1]);
                }
                lemma_join_front(first, others, seq!['\n']);
                assert(s =~= first + seq!['\n'] + rest);
            }
        } else {
            assert(forall|k: int| 0 <= k < s.len() ==> s[k] != '\n');
        }
    }
}

/// What neither begins nor ends with white space stays in a text that is
/// trimmed.
pub proof fn lemma_trim_keeps(s: Seq<char>, p: Seq<char>)
    requires
        contains(s, p),
        p.len() > 0,
        !is_white(p[0]),
        !is_white(p.last()),
    ensures
        contains(trim(s), p),
{
    let k = choose|k: int| occurs_at(s, p, k);
    let (i, j) = choose|i: int, j: int|
        0 <= i <= j <= s.len() && trim(s) == #[trigger] s.subrange(i, j) && (forall|k: int|
            0 <= k < i || j <= k < s.len() ==> is_white(#[trigger] s[k])) && (i < j ==> !is_white(
            s[i],
        ) && !is_white(s[j - 1]));
    law_trim_takes_off_white_space(s);
    assert(s.subrange(k, k + p.len())[0] == s[k]);
    assert(s.subrange(k, k + p.len())[p.len() - 1] == s[k + p.len() - 1]);
    assert(i <= k);
    assert(k + p.len() <= j);
    assert(trim(s).subrange(k - i, k - i + p.len()) =~= s.subrange(k, k + p.len()));
    assert(occurs_at(trim(s), p, k - i));
}

/// What is trimmed neither begins nor ends with white space, and occurs in the
/// text.
pub proof fn lemma_trimmed_ends(s: Seq<char>)
    ensures
        trim(s).len() > 0 ==> !is_white(trim(s)[0]) && !is_white(trim(s).last()),
        contains(s, trim(s)),
{
    law_trim_takes_off_white_space(s);
    let (i, j) = choose|i: int, j: int|
        0 <= i <= j <= s.len() && trim(s) == #[trigger] s.subrange(i, j) && (forall|k: int|
            0 <= k < i || j <= k < s.len() ==> is_white(#[trigger] s[k])) && (i < j ==> !is_white(
            s[i],
        ) && !is_white(s[j - 1]));
    assert(occurs_at(s, trim(s), i));
}

/// What occurs at an index, and not in front of it, is found there.
pub proof fn lemma_found_first(s: Seq<char>, p: Seq<char>, from: int, i: int)
    requires
        0 <= from <= i,
        occurs_at(s, p, i),
        forall|j: int| from <= j < i ==> !#[trigger] occurs_at(s, p, j),
    ensures
        find_from(s, p, from) == Some(i),
{
    lemma_find_from(s, p, from);
    if let Some(k) = find_from(s, p, from) {
        if k < i {
            assert(!occurs_at(s, p, k));
        }
    }
}

/// Where a part occurs first, it is replaced, and what follows it is treated
/// in turn; a text without the part stays.
pub proof fn law_parts_are_replaced(a: Seq<char>, p: Seq<char>, b: Seq<char>, by: Seq<char>)
    requires
        p.len() > 0,
        forall|i: int| 0 <= i < a.len() ==> !#[trigger] occurs_at(a + p + b, p, i),
    ensures
        replace_all(a + p + b, p, by) == a + by + replace_all(b, p, by),
        !contains(b, p) ==> replace_all(b, p, by) == b,
{
    let s = a + p + b;
    assert(s.subrange(a.len() as int, (a.len() + p.len()) as int) =~= p);
    assert(occurs_at(s, p, a.len() as int));
    lemma_found_first(s, p, 0, a.len() as int);
    assert(s.take(a.len() as int) =~= a);
    assert(s.skip((a.len() + p.len()) as int) =~= b);
    lemma_contains_find(b, p);
}

/// A short text is not cut. Of a long one the front stays, as much as fits,
/// and dots follow it.
pub proof fn law_long_text_is_cut(s: Seq<char>, max: nat)
    ensures
        byte_len(s) <= max ==> ellipsized(s, max) == s,
        byte_len(s) > max ==> exists|k: int|
            0 <= k < s.len() && ellipsized(s, max) == #[trigger] s.take(k) + seq!['.', '.', '.']
                && byte_len(s.take(k)) <= max && max < byte_len(s.take(k + 1)),
{
    if byte_len(s) > max {
        reveal_strlit("...");
        lemma_floor_chars(s, max);
        let k = floor_prefix(s, max).len() as int;
        assert("..."@ =~= seq!['.', '.', '.']);
        assert(floor_prefix(s, max) =~= s.take(k));
        if k >= s.len() {
            assert(s.take(k) =~= s);
        }
    }
}

} // verus!
