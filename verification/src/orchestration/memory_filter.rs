//! Which sections of the long-term memory go into a prompt.

use crate::order;
use crate::seqs;
use crate::text;
use crate::text::{
    chars_of, has_text, is_blank, str_contains, str_join, str_lines, str_starts_with, str_trim,
    string_of,
};
use vstd::prelude::*;

verus! {

// ---------------------------------------------------------------------------
// Keywords
// ---------------------------------------------------------------------------

/// Whether the character belongs to a word of ASCII letters, digits and
/// underscores.
pub open spec fn is_word_char(c: char) -> bool {
    ||| '0' <= c <= '9'
    ||| 'A' <= c <= 'Z'
    ||| 'a' <= c <= 'z'
    ||| c == '_'
}

/// Whether the character is a Chinese one.
pub open spec fn is_cjk(c: char) -> bool {
    0x4E00 <= c as u32 <= 0x9FFF
}

/// Whether the word from `i` to `j` is one that no neighbour makes longer.
pub open spec fn is_word(s: Seq<char>, i: int, j: int) -> bool {
    &&& 0 <= i < j <= s.len()
    &&& forall|k: int| i <= k < j ==> is_word_char(#[trigger] s[k])
    &&& i > 0 ==> !is_word_char(s[i - 1])
    &&& j < s.len() ==> !is_word_char(s[j])
}

/// A character with the ASCII capitals turned into small letters.
pub open spec fn small(c: char) -> char {
    text::ascii_small(c) as char
}

/// A text with the ASCII capitals turned into small letters.
pub open spec fn small_text(s: Seq<char>) -> Seq<char> {
    Seq::new(s.len(), |i: int| small(s[i]))
}

/// Whether `t` is a keyword of `s`: one of its words of two characters at
/// least, in small letters, or two Chinese characters that stand together.
pub open spec fn is_keyword(s: Seq<char>, t: Seq<char>) -> bool {
    ||| exists|i: int, j: int| #[trigger]
        is_word(s, i, j) && j - i >= 2 && t == small_text(s.subrange(i, j))
    ||| exists|i: int| is_pair(s, i) && t == #[trigger] s.subrange(i, i + 2)
}

/// Whether two Chinese characters stand together there.
pub open spec fn is_pair(s: Seq<char>, i: int) -> bool {
    0 <= i && i + 1 < s.len() && is_cjk(s[i]) && is_cjk(s[i + 1])
}

fn char_is_word(c: char) -> (r: bool)
    ensures
        r == is_word_char(c),
{
    ('0' <= c && c <= '9') || ('A' <= c && c <= 'Z') || ('a' <= c && c <= 'z') || c == '_'
}

fn char_is_cjk(c: char) -> (r: bool)
    ensures
        r == is_cjk(c),
{
    let u: u32 = c as u32;
    0x4E00 <= u && u <= 0x9FFF
}

fn small_char(c: char) -> (r: char)
    requires
        is_word_char(c),
    ensures
        r == small(c),
{
    if 'A' <= c && c <= 'Z' {
        let u: u8 = c as u8;
        proof {
            vstd::utf8::char_u32_cast(c, c as u32);
        }
        (u + 32) as char
    } else {
        proof {
            vstd::utf8::char_u32_cast(c, c as u32);
        }
        c
    }
}

/// The word from `i` to `j` in small letters.
fn small_word(cs: &[char], i: usize, j: usize) -> (r: String)
    requires
        is_word(cs@, i as int, j as int),
    ensures
        r@ == small_text(cs@.subrange(i as int, j as int)),
{
    let ghost w = cs@.subrange(i as int, j as int);
    let mut r = String::new();
    let mut k: usize = i;
    proof {
        assert(r@ =~= small_text(w.take(0)));
    }
    while k < j
        invariant
            i <= k <= j <= cs@.len(),
            is_word(cs@, i as int, j as int),
            w == cs@.subrange(i as int, j as int),
            r@ == small_text(w.take(k - i)),
        decreases j - k,
    {
        let c = small_char(cs[k]);
        r.push(c);
        proof {
            assert(w[k - i] == cs@[k as int]);
            assert(r@ =~= small_text(w.take(k - i + 1)));
        }
        k += 1;
    }
    proof {
        assert(w.take(j - i) =~= w);
    }
    r
}

/// Whether `t` is a keyword that starts in front of `n`.
pub open spec fn is_keyword_before(s: Seq<char>, t: Seq<char>, n: int) -> bool {
    ||| exists|i: int, j: int| #[trigger]
        is_word(s, i, j) && i < n && j - i >= 2 && t == small_text(s.subrange(i, j))
    ||| exists|i: int| is_pair(s, i) && i < n && t == #[trigger] s.subrange(i, i + 2)
}

/// Puts a keyword to the others, unless it is among them.
fn note_keyword(out: &mut Vec<String>, w: String)
    requires
        text::texts(old(out)@).no_duplicates(),
    ensures
        text::texts(final(out)@).no_duplicates(),
        forall|t: Seq<char>| #[trigger]
            text::texts(final(out)@).contains(t) <==> text::texts(old(out)@).contains(t) || t == w@,
{
    let ghost before = text::texts(out@);
    if !has_text(out, w.as_str()) {
        out.push(w);
        proof {
            assert(text::texts(out@) =~= before.push(w@));
            assert forall|t: Seq<char>| #[trigger]
                text::texts(out@).contains(t) <==> before.contains(t) || t == w@ by {
                seqs::lemma_push_contains(before, w@, t);
            }
        }
    }
}

/// The keywords of a text, each once.
pub fn extract_keywords(s: &str) -> (r: Vec<String>)
    ensures
        text::texts(r@).no_duplicates(),
        forall|t: Seq<char>| #[trigger] text::texts(r@).contains(t) <==> is_keyword(s@, t),
{
    let cs = chars_of(s);
    let n: usize = cs.len();
    let ghost sv = s@;
    let mut out: Vec<String> = Vec::new();
    let mut i: usize = 0;
    while i < n
        invariant
            0 <= i <= n == cs@.len(),
            cs@ == sv,
            sv == s@,
            text::texts(out@).no_duplicates(),
            forall|t: Seq<char>| #[trigger]
                text::texts(out@).contains(t) <==> is_keyword_before(sv, t, i as int),
        decreases n - i,
    {
        let ghost before = text::texts(out@);
        let ghost at = i as int;
        let starts = char_is_word(cs[i]) && (i == 0 || !char_is_word(cs[i - 1]));
        if starts {
            let mut j: usize = i + 1;
            while j < n && char_is_word(cs[j])
                invariant
                    i < j <= n == cs@.len(),
                    cs@ == sv,
                    forall|k: int| i <= k < j ==> is_word_char(#[trigger] sv[k]),
                decreases n - j,
            {
                j += 1;
            }
            proof {
                assert(is_word(sv, at, j as int));
                assert forall|j2: int| is_word(sv, at, j2) implies j2 == j by {
                    if j2 < j {
                        assert(is_word_char(sv[j2]));
                    }
                    if j2 > j {
                        assert(is_word_char(sv[j as int]));
                    }
                }
                assert(!is_pair(sv, at)) by {
                    vstd::utf8::char_u32_cast(sv[at], sv[at] as u32);
                }
            }
            if j - i >= 2 {
                let w = small_word(cs.as_slice(), i, j);
                note_keyword(&mut out, w);
                proof {
                    assert forall|t: Seq<char>| #[trigger]
                        text::texts(out@).contains(t) <==> is_keyword_before(sv, t, at + 1) by {
                        lemma_step(sv, t, at);
                        assert(before.contains(t) <==> is_keyword_before(sv, t, at));
                    }
                }
            } else {
                proof {
                    assert forall|t: Seq<char>| #[trigger]
                        text::texts(out@).contains(t) <==> is_keyword_before(sv, t, at + 1) by {
                        lemma_step(sv, t, at);
                        assert(before.contains(t) <==> is_keyword_before(sv, t, at));
                    }
                }
            }
        } else {
            proof {
                assert forall|j: int| !is_word(sv, at, j) by {
                    if is_word(sv, at, j) {
                        assert(is_word_char(sv[at]));
                    }
                }
            }
            if i + 1 < n && char_is_cjk(cs[i]) && char_is_cjk(cs[i + 1]) {
                let p = string_of(cs.as_slice(), i, i + 2);
                proof {
                    assert(p@ =~= sv.subrange(at, at + 2));
                }
                note_keyword(&mut out, p);
                proof {
                    assert forall|t: Seq<char>| #[trigger]
                        text::texts(out@).contains(t) <==> is_keyword_before(sv, t, at + 1) by {
                        lemma_step(sv, t, at);
                        assert(before.contains(t) <==> is_keyword_before(sv, t, at));
                    }
                }
            } else {
                proof {
                    assert forall|t: Seq<char>| #[trigger]
                        text::texts(out@).contains(t) <==> is_keyword_before(sv, t, at + 1) by {
                        lemma_step(sv, t, at);
                        assert(before.contains(t) <==> is_keyword_before(sv, t, at));
                    }
                }
            }
        }
        i += 1;
    }
    proof {
        assert forall|t: Seq<char>| #[trigger] text::texts(out@).contains(t) <==> is_keyword(
            sv,
            t,
        ) by {
            assert(is_keyword_before(sv, t, n as int) <==> is_keyword(sv, t));
        }
    }
    out
}

/// The keywords that start at one place more.
proof fn lemma_step(s: Seq<char>, t: Seq<char>, i: int)
    ensures
        is_keyword_before(s, t, i + 1) <==> is_keyword_before(s, t, i) || (exists|j: int| #[trigger]
            is_word(s, i, j) && j - i >= 2 && t == small_text(s.subrange(i, j))) || (is_pair(s, i)
            && t == s.subrange(i, i + 2)),
{
    if is_keyword_before(s, t, i + 1) && !is_keyword_before(s, t, i) {
        if exists|a: int, j: int| #[trigger]
            is_word(s, a, j) && a < i + 1 && j - a >= 2 && t == small_text(s.subrange(a, j)) {
            let (a, j) = choose|a: int, j: int| #[trigger]
                is_word(s, a, j) && a < i + 1 && j - a >= 2 && t == small_text(s.subrange(a, j));
            assert(a == i);
        } else {
            let a = choose|a: int|
                is_pair(s, a) && a < i + 1 && t == #[trigger] s.subrange(a, a + 2);
            assert(a == i);
        }
    }
}

// ---------------------------------------------------------------------------
// Sections
// ---------------------------------------------------------------------------

/// Whether a line starts a section.
pub open spec fn is_header(line: Seq<char>) -> bool {
    text::starts_with(line, "## "@)
}

/// How many lines there are in front of the first that starts a section.
pub open spec fn until_header(lines: Seq<Seq<char>>) -> nat
    decreases lines.len(),
{
    if lines.len() == 0 || is_header(lines[0]) {
        0
    } else {
        1 + until_header(lines.skip(1))
    }
}

/// Lines, each with its end.
pub open spec fn with_ends(lines: Seq<Seq<char>>) -> Seq<char>
    decreases lines.len(),
{
    if lines.len() == 0 {
        Seq::empty()
    } else {
        with_ends(lines.drop_last()) + lines.last() + "\n"@
    }
}

/// There are no more lines in front of a section than lines.
pub proof fn lemma_until_header(lines: Seq<Seq<char>>)
    ensures
        until_header(lines) <= lines.len(),
    decreases lines.len(),
{
    if lines.len() > 0 && !is_header(lines[0]) {
        lemma_until_header(lines.skip(1));
    }
}

/// The sections of lines the first of which starts one: the line that starts
/// it, and what follows it.
pub open spec fn titled(lines: Seq<Seq<char>>) -> Seq<(Seq<char>, Seq<char>)>
    decreases lines.len(),
{
    if lines.len() == 0 {
        Seq::empty()
    } else {
        let rest = lines.skip(1);
        proof {
            lemma_until_header(rest);
        }
        let n = until_header(rest) as int;
        seq![(lines[0], text::trim(with_ends(rest.take(n))))] + titled(rest.skip(n))
    }
}

/// The lines that are not blank.
pub open spec fn not_blank(lines: Seq<Seq<char>>) -> Seq<Seq<char>>
    decreases lines.len(),
{
    if lines.len() == 0 {
        Seq::empty()
    } else {
        let before = not_blank(lines.drop_last());
        if text::trim(lines.last()).len() == 0 {
            before
        } else {
            before.push(lines.last())
        }
    }
}

/// The sections of a memory. A memory without a line that starts one is a
/// section as a whole, unless it is blank.
pub open spec fn sections_of(memory: Seq<char>) -> Seq<(Seq<char>, Seq<char>)> {
    let ls = text::lines(memory);
    let n = until_header(ls);
    if n < ls.len() {
        titled(ls.skip(n as int))
    } else {
        let body = text::trim(with_ends(not_blank(ls)));
        if body.len() == 0 {
            Seq::empty()
        } else {
            seq![(Seq::empty(), body)]
        }
    }
}

/// The position of the first line from `from` on that starts a section, else
/// the number of lines.
fn next_header(lines: &Vec<String>, from: usize) -> (r: usize)
    requires
        from <= lines@.len(),
    ensures
        from <= r <= lines@.len(),
        r - from == until_header(text::texts(lines@).skip(from as int)),
{
    let ghost all = text::texts(lines@);
    let mut i: usize = from;
    while i < lines.len() && !str_starts_with(lines[i].as_str(), "## ")
        invariant
            from <= i <= lines@.len(),
            all == text::texts(lines@),
            until_header(all.skip(from as int)) == (i - from) + until_header(all.skip(i as int)),
        decreases lines@.len() - i,
    {
        proof {
            assert(all.skip(i as int)[0] == lines@[i as int]@);
            assert(all.skip(i as int).skip(1) =~= all.skip(i + 1));
        }
        i += 1;
    }
    proof {
        if i < lines@.len() {
            assert(all.skip(i as int)[0] == lines@[i as int]@);
        }
    }
    i
}

/// What stands in the lines from `from` to `to`, trimmed.
fn body_of(lines: &Vec<String>, from: usize, to: usize) -> (r: String)
    requires
        from <= to <= lines@.len(),
    ensures
        r@ == text::trim(with_ends(text::texts(lines@).subrange(from as int, to as int))),
{
    let ghost part = text::texts(lines@).subrange(from as int, to as int);
    let mut body = String::new();
    let mut i: usize = from;
    proof {
        assert(body@ =~= with_ends(part.take(0)));
    }
    while i < to
        invariant
            from <= i <= to <= lines@.len(),
            part == text::texts(lines@).subrange(from as int, to as int),
            body@ == with_ends(part.take(i - from)),
        decreases to - i,
    {
        body.push_str(lines[i].as_str());
        body.push_str("\n");
        proof {
            let k = i - from;
            assert(part.take(k + 1).drop_last() =~= part.take(k));
            assert(part.take(k + 1).last() == lines@[i as int]@);
        }
        i += 1;
    }
    proof {
        assert(part.take(to - from) =~= part);
    }
    str_trim(body.as_str())
}

/// The lines that are not blank.
fn drop_blank(lines: &Vec<String>) -> (r: Vec<String>)
    ensures
        text::texts(r@) == not_blank(text::texts(lines@)),
{
    let ghost all = text::texts(lines@);
    let mut out: Vec<String> = Vec::new();
    let mut i: usize = 0;
    proof {
        assert(text::texts(out@) =~= not_blank(all.take(0)));
    }
    while i < lines.len()
        invariant
            0 <= i <= lines@.len(),
            all == text::texts(lines@),
            text::texts(out@) == not_blank(all.take(i as int)),
        decreases lines@.len() - i,
    {
        proof {
            assert(all.take(i + 1).drop_last() =~= all.take(i as int));
            assert(all.take(i + 1).last() == lines@[i as int]@);
        }
        if !is_blank(lines[i].as_str()) {
            let ghost before = out@;
            let line = lines[i].clone();
            out.push(line);
            proof {
                assert(text::texts(out@) =~= text::texts(before).push(line@));
            }
        }
        i += 1;
    }
    proof {
        assert(all.take(i as int) =~= all);
    }
    out
}

/// The sections of a memory.
pub fn split_memory_sections(memory: &str) -> (r: Vec<(String, String)>)
    ensures
        order::keyed(r@) == sections_of(memory@),
{
    let lines = str_lines(memory);
    let ghost all = text::texts(lines@);
    let n: usize = lines.len();
    let mut out: Vec<(String, String)> = Vec::new();
    proof {
        assert(all.skip(0) =~= all);
    }
    let mut i = next_header(&lines, 0);
    if i == n {
        let kept = drop_blank(&lines);
        let body = body_of(&kept, 0, kept.len());
        proof {
            let kv = text::texts(kept@);
            assert(kv.subrange(0, kv.len() as int) =~= kv);
        }
        if !body.as_str().is_empty() {
            let empty = String::new();
            out.push((empty, body));
            proof {
                assert(order::keyed(out@) =~= seq![(empty@, body@)]);
                assert(empty@ =~= Seq::<char>::empty());
            }
        } else {
            proof {
                assert(order::keyed(out@) =~= Seq::empty());
            }
        }
        return out;
    }
    let ghost want = titled(all.skip(i as int));
    proof {
        assert(order::keyed(out@) + want =~= want);
    }
    while i < n
        invariant
            i <= n == lines@.len(),
            all == text::texts(lines@),
            order::keyed(out@) + titled(all.skip(i as int)) == want,
        decreases n - i,
    {
        let ghost here = all.skip(i as int);
        let ghost before = out@;
        let next = next_header(&lines, i + 1);
        let body = body_of(&lines, i + 1, next);
        let header = lines[i].clone();
        proof {
            let rest = all.skip(i + 1);
            assert(here.skip(1) =~= rest);
            assert(here[0] == header@);
            let k = next - (i + 1);
            assert(rest.take(k) =~= all.subrange(i + 1, next as int));
            assert(rest.skip(k) =~= all.skip(next as int));
        }
        out.push((header, body));
        proof {
            assert(order::keyed(out@) =~= order::keyed(before).push((header@, body@)));
            assert(order::keyed(out@) + titled(all.skip(next as int)) =~= order::keyed(before)
                + titled(here));
        }
        i = next;
    }
    proof {
        assert(all.skip(n as int) =~= Seq::empty());
        assert(order::keyed(out@) + titled(all.skip(n as int)) =~= order::keyed(out@));
    }
    out
}

// ---------------------------------------------------------------------------
// Which sections are kept
// ---------------------------------------------------------------------------

/// Whether a title in lower case is that of a section on how to work, which is
/// always kept.
pub open spec fn is_structural(h: Seq<char>) -> bool {
    ||| text::contains(h, "skill"@)
    ||| text::contains(h, "path"@)
    ||| text::contains(h, "location"@)
    ||| text::contains(h, "规则"@)
    ||| text::contains(h, "工作"@)
    ||| text::contains(h, "项目"@)
    ||| text::contains(h, "config"@)
    ||| text::contains(h, "important"@)
    ||| text::contains(h, "注意"@)
    ||| text::contains(h, "workspace"@)
    ||| text::contains(h, "instability"@)
    ||| text::contains(h, "note"@)
    ||| text::contains(h, "known"@)
    ||| text::contains(h, "issue"@)
    ||| text::contains(h, "bug"@)
    ||| text::contains(h, "logic"@)
    ||| text::contains(h, "spec"@)
    ||| text::contains(h, "结构"@)
}

/// Whether a title in lower case is that of a section which is always kept.
pub fn is_structural_title(h: &str) -> (r: bool)
    ensures
        r == is_structural(h@),
{
    str_contains(h, "skill") || str_contains(h, "path") || str_contains(h, "location") || str_contains(h, "规则") || str_contains(h, "工作") || str_contains(h, "项目") || str_contains(h, "config") || str_contains(h, "important") || str_contains(h, "注意") || str_contains(h, "workspace") || str_contains(h, "instability") || str_contains(h, "note") || str_contains(h, "known") || str_contains(h, "issue") || str_contains(h, "bug") || str_contains(h, "logic") || str_contains(h, "spec") || str_contains(h, "结构")
}

/// Whether the section is always kept.
pub fn is_structural_section(header: &str) -> (r: bool)
    ensures
        r == is_structural(text::lowercased(header@)),
{
    let h = header.to_lowercase();
    is_structural_title(h.as_str())
}

/// Whether two texts have a keyword in common.
pub open spec fn share_keyword(a: Seq<char>, b: Seq<char>) -> bool {
    exists|t: Seq<char>| #[trigger] is_keyword(a, t) && is_keyword(b, t)
}

/// The text of a section.
pub open spec fn section_text(s: (Seq<char>, Seq<char>)) -> Seq<char> {
    s.0 + "\n"@ + s.1
}

/// Whether a section is kept for that request.
pub open spec fn is_kept(s: (Seq<char>, Seq<char>), request: Seq<char>) -> bool {
    is_structural(text::lowercased(s.0)) || share_keyword(request, s.0 + " "@ + s.1)
}

/// The texts of the sections that are kept, in order.
pub open spec fn kept_sections(
    sections: Seq<(Seq<char>, Seq<char>)>,
    request: Seq<char>,
) -> Seq<Seq<char>>
    decreases sections.len(),
{
    if sections.len() == 0 {
        Seq::empty()
    } else {
        let before = kept_sections(sections.drop_last(), request);
        if is_kept(sections.last(), request) {
            before.push(section_text(sections.last()))
        } else {
            before
        }
    }
}

/// Whether a text has any keyword.
pub open spec fn has_keyword(s: Seq<char>) -> bool {
    exists|t: Seq<char>| is_keyword(s, t)
}

/// What of a memory goes into the prompt of a request.
pub open spec fn filtered(memory: Seq<char>, request: Seq<char>) -> Seq<char> {
    if !has_keyword(request) || sections_of(memory).len() == 0 {
        memory
    } else {
        text::join(kept_sections(sections_of(memory), request), "\n\n"@)
    }
}

/// Whether a list of keywords and a text have one in common.
fn shares(keywords: &Vec<String>, request: &str, other: &str) -> (r: bool)
    requires
        forall|t: Seq<char>| #[trigger]
            text::texts(keywords@).contains(t) <==> is_keyword(request@, t),
    ensures
        r == share_keyword(request@, other@),
{
    let theirs = extract_keywords(other);
    let ghost kv = text::texts(keywords@);
    let mut i: usize = 0;
    while i < keywords.len()
        invariant
            0 <= i <= keywords@.len(),
            kv == text::texts(keywords@),
            forall|t: Seq<char>| #[trigger]
                text::texts(theirs@).contains(t) <==> is_keyword(other@, t),
            forall|t: Seq<char>| #[trigger] kv.contains(t) <==> is_keyword(request@, t),
            forall|k: int| 0 <= k < i ==> !is_keyword(other@, #[trigger] kv[k]),
        decreases keywords@.len() - i,
    {
        proof {
            assert(kv[i as int] == keywords@[i as int]@);
        }
        if has_text(&theirs, keywords[i].as_str()) {
            proof {
                let t = kv[i as int];
                assert(kv.contains(t));
                assert(is_keyword(request@, t));
                assert(text::texts(theirs@).contains(t));
            }
            return true;
        }
        proof {
            assert(!text::texts(theirs@).contains(kv[i as int]));
        }
        i += 1;
    }
    proof {
        if share_keyword(request@, other@) {
            let t = choose|t: Seq<char>| #[trigger]
                is_keyword(request@, t) && is_keyword(other@, t);
            assert(kv.contains(t));
            let k = choose|k: int| 0 <= k < kv.len() && kv[k] == t;
            assert(!is_keyword(other@, kv[k]));
        }
    }
    false
}

/// What of a memory goes into the prompt of a request: the sections on how to
/// work, and those that share a keyword with the request.
pub fn filter_memory_by_relevance(memory: &str, user_message: &str) -> (r: String)
    ensures
        r@ == filtered(memory@, user_message@),
{
    let keywords = extract_keywords(user_message);
    if keywords.len() == 0 {
        proof {
            if has_keyword(user_message@) {
                let t = choose|t: Seq<char>| is_keyword(user_message@, t);
                assert(text::texts(keywords@).contains(t));
            }
        }
        return memory.to_owned();
    }
    proof {
        let t = text::texts(keywords@)[0];
        assert(text::texts(keywords@).contains(t));
        assert(is_keyword(user_message@, t));
    }
    let sections = split_memory_sections(memory);
    let ghost sv = order::keyed(sections@);
    if sections.len() == 0 {
        return memory.to_owned();
    }
    let mut kept: Vec<String> = Vec::new();
    let mut i: usize = 0;
    proof {
        assert(text::texts(kept@) =~= kept_sections(sv.take(0), user_message@));
    }
    while i < sections.len()
        invariant
            0 <= i <= sections@.len(),
            sv == order::keyed(sections@),
            forall|t: Seq<char>| #[trigger]
                text::texts(keywords@).contains(t) <==> is_keyword(user_message@, t),
            text::texts(kept@) == kept_sections(sv.take(i as int), user_message@),
        decreases sections@.len() - i,
    {
        proof {
            assert(sv.take(i + 1).drop_last() =~= sv.take(i as int));
            assert(sv.take(i + 1).last() == (sections@[i as int].0@, sections@[i as int].1@));
        }
        let header = sections[i].0.as_str();
        let body = sections[i].1.as_str();
        let mut whole = header.to_owned();
        whole.push_str(" ");
        whole.push_str(body);
        if is_structural_section(header) || shares(&keywords, user_message, whole.as_str()) {
            let mut full = header.to_owned();
            full.push_str("\n");
            full.push_str(body);
            let ghost before = kept@;
            kept.push(full);
            proof {
                assert(text::texts(kept@) =~= text::texts(before).push(full@));
            }
        }
        i += 1;
    }
    proof {
        assert(sv.take(i as int) =~= sv);
    }
    str_join(&kept, "\n\n")
}

/// Whether a text is that of a section that is kept.
pub open spec fn is_kept_text(
    sections: Seq<(Seq<char>, Seq<char>)>,
    request: Seq<char>,
    t: Seq<char>,
) -> bool {
    exists|i: int|
        0 <= i < sections.len() && is_kept(#[trigger] sections[i], request) && section_text(
            sections[i],
        ) == t
}

/// A section on how to work is kept whatever is asked for, and so is one that
/// shares a keyword with the request; no other section is kept.
pub proof fn law_kept_sections(sections: Seq<(Seq<char>, Seq<char>)>, request: Seq<char>)
    ensures
        forall|t: Seq<char>| #[trigger]
            kept_sections(sections, request).contains(t) <==> is_kept_text(sections, request, t),
        kept_sections(sections, request).len() <= sections.len(),
    decreases sections.len(),
{
    if sections.len() > 0 {
        let front = sections.drop_last();
        let last = sections.last();
        let before = kept_sections(front, request);
        let after = kept_sections(sections, request);
        law_kept_sections(front, request);
        assert forall|t: Seq<char>| #[trigger] after.contains(t) <==> is_kept_text(
            sections,
            request,
            t,
        ) by {
            seqs::lemma_push_contains(before, section_text(last), t);
            assert(before.contains(t) <==> is_kept_text(front, request, t));
            if is_kept_text(front, request, t) {
                let i = choose|i: int|
                    0 <= i < front.len() && is_kept(#[trigger] front[i], request) && section_text(
                        front[i],
                    ) == t;
                assert(sections[i] == front[i]);
            }
            if is_kept_text(sections, request, t) {
                let i = choose|i: int|
                    0 <= i < sections.len() && is_kept(#[trigger] sections[i], request)
                        && section_text(sections[i]) == t;
                if i < front.len() {
                    assert(front[i] == sections[i]);
                }
            }
            if is_kept(last, request) && section_text(last) == t {
                assert(sections[sections.len() - 1] == last);
            }
        }
    }
}

/// The sections that are kept stay in order: what is kept of two parts is kept
/// of the whole, the first part first.
pub proof fn law_kept_sections_stay_in_order(
    a: Seq<(Seq<char>, Seq<char>)>,
    b: Seq<(Seq<char>, Seq<char>)>,
    request: Seq<char>,
)
    ensures
        kept_sections(a + b, request) == kept_sections(a, request) + kept_sections(b, request),
    decreases b.len(),
{
    if b.len() == 0 {
        assert(a + b =~= a);
        assert(kept_sections(a, request) + kept_sections(b, request) =~= kept_sections(
            a,
            request,
        ));
    } else {
        law_kept_sections_stay_in_order(a, b.drop_last(), request);
        assert((a + b).drop_last() =~= a + b.drop_last());
        assert(kept_sections(a + b, request) =~= kept_sections(a, request) + kept_sections(
            b,
            request,
        ));
    }
}

/// A section that matters for a request goes into its prompt whole.
pub proof fn law_relevant_sections_reach_the_prompt(
    memory: Seq<char>,
    request: Seq<char>,
    i: int,
)
    requires
        has_keyword(request),
        0 <= i < sections_of(memory).len(),
        is_structural(text::lowercased(sections_of(memory)[i].0)) || exists|t: Seq<char>|
            #[trigger] is_keyword(request, t) && is_keyword(
                sections_of(memory)[i].0 + " "@ + sections_of(memory)[i].1,
                t,
            ),
    ensures
        text::contains(filtered(memory, request), sections_of(memory)[i].0),
        text::contains(filtered(memory, request), sections_of(memory)[i].1),
{
    let all = sections_of(memory);
    let s = all[i];
    let kept = kept_sections(all, request);
    law_kept_sections(all, request);
    assert(is_kept(s, request));
    assert(is_kept_text(all, request, section_text(s)));
    assert(kept.contains(section_text(s)));
    let k = choose|k: int| 0 <= k < kept.len() && kept[k] == section_text(s);
    text::law_joined_text_holds_every_part(kept, "\n\n"@, k);
    let t = section_text(s);
    let none = Seq::<char>::empty();
    assert(text::contains(t, s.0)) by {
        assert(t =~= none + s.0 + ("\n"@ + s.1));
        text::lemma_contains_part(none, s.0, "\n"@ + s.1);
    }
    assert(text::contains(t, s.1)) by {
        assert(t =~= (s.0 + "\n"@) + s.1 + none);
        text::lemma_contains_part(s.0 + "\n"@, s.1, none);
    }
    text::lemma_contains_within(filtered(memory, request), t, s.0);
    text::lemma_contains_within(filtered(memory, request), t, s.1);
}

/// A memory is told whole where a request says nothing to go by.
pub proof fn law_memory_is_told_whole(memory: Seq<char>, request: Seq<char>)
    requires
        forall|t: Seq<char>| !#[trigger] is_keyword(request, t),
    ensures
        filtered(memory, request) == memory,
{
}

proof fn lemma_with_ends(lines: Seq<Seq<char>>, j: int)
    requires
        0 <= j < lines.len(),
    ensures
        text::contains(with_ends(lines), lines[j]),
    decreases lines.len(),
{
    let p = with_ends(lines.drop_last());
    let none = Seq::<char>::empty();
    if j == lines.len() - 1 {
        text::lemma_contains_part(p, lines.last(), "\n"@);
    } else {
        lemma_with_ends(lines.drop_last(), j);
        assert(p + lines.last() + "\n"@ =~= none + p + (lines.last() + "\n"@));
        text::lemma_contains_part(none, p, lines.last() + "\n"@);
        text::lemma_contains_within(with_ends(lines), p, lines[j]);
    }
}

/// Whether section `k` has the line at `h` as its title.
pub open spec fn begins_section(
    lines: Seq<Seq<char>>,
    sections: Seq<(Seq<char>, Seq<char>)>,
    h: int,
    k: int,
) -> bool {
    0 <= k < sections.len() && sections[k].0 == lines[h]
}

/// Every heading of a memory begins a section, and what follows it up to the
/// next heading is the text of the section, but for white space around it.
pub proof fn law_headings_begin_sections(lines: Seq<Seq<char>>, h: int, j: int)
    requires
        lines.len() > 0,
        is_header(lines[0]),
        0 <= h < lines.len(),
        is_header(lines[h]),
        h <= j < lines.len(),
        forall|k: int| h < k <= j ==> !is_header(#[trigger] lines[k]),
    ensures
        exists|k: int| #[trigger]
            begins_section(lines, titled(lines), h, k) && (h < j && text::trim(lines[j]).len() > 0
                ==> text::contains(titled(lines)[k].1, text::trim(lines[j]))),
    decreases lines.len(),
{
    let rest = lines.skip(1);
    lemma_until_header(rest);
    lemma_until_header_first(rest);
    let n = until_header(rest) as int;
    let all = titled(lines);
    let body = rest.take(n);
    let others = rest.skip(n);
    if h <= n {
        assert(h == 0) by {
            if h > 0 {
                assert(rest[h - 1] == lines[h]);
            }
        }
        if j > 0 && text::trim(lines[j]).len() > 0 {
            assert(j <= n) by {
                if j > n {
                    assert(rest[n] == lines[n + 1]);
                }
            }
            assert(body[j - 1] == lines[j]);
            lemma_with_ends(body, j - 1);
            let t = text::trim(lines[j]);
            text::lemma_trimmed_ends(lines[j]);
            text::lemma_contains_within(with_ends(body), lines[j], t);
            text::lemma_trim_keeps(with_ends(body), t);
        }
        assert(begins_section(lines, all, h, 0));
    } else {
        let m = n + 1;
        assert(others =~= lines.skip(m));
        assert(others[0] == rest[n]);
        assert forall|k: int| h - m < k <= j - m implies !is_header(#[trigger] others[k]) by {
            assert(others[k] == lines[k + m]);
        }
        law_headings_begin_sections(others, h - m, j - m);
        let k = choose|k: int| #[trigger]
            begins_section(others, titled(others), h - m, k) && (h - m < j - m && text::trim(
                others[j - m],
            ).len() > 0 ==> text::contains(titled(others)[k].1, text::trim(others[j - m])));
        assert(all[k + 1] == titled(others)[k]);
        assert(begins_section(lines, all, h, k + 1));
    }
}

proof fn lemma_until_header_first(lines: Seq<Seq<char>>)
    ensures
        until_header(lines) < lines.len() ==> is_header(lines[until_header(lines) as int]),
        forall|k: int| 0 <= k < until_header(lines) ==> !is_header(#[trigger] lines[k]),
        until_header(lines) <= lines.len(),
    decreases lines.len(),
{
    if lines.len() > 0 && !is_header(lines[0]) {
        let t = lines.skip(1);
        lemma_until_header_first(t);
        assert forall|k: int| 0 <= k < until_header(lines) implies !is_header(
            #[trigger] lines[k],
        ) by {
            if k > 0 {
                assert(t[k - 1] == lines[k]);
            }
        }
    }
}

/// Two texts share a keyword where one is a keyword of both, whichever of
/// them comes first.
pub proof fn law_shared_keywords_are_of_both(a: Seq<char>, b: Seq<char>, t: Seq<char>)
    ensures
        is_keyword(a, t) && is_keyword(b, t) ==> share_keyword(a, b),
        share_keyword(a, b) == share_keyword(b, a),
        (forall|k: Seq<char>| !#[trigger] is_keyword(b, k)) ==> !share_keyword(a, b),
{
    if share_keyword(a, b) {
        let k = choose|k: Seq<char>| #[trigger] is_keyword(a, k) && is_keyword(b, k);
        assert(is_keyword(b, k) && is_keyword(a, k));
    }
    if share_keyword(b, a) {
        let k = choose|k: Seq<char>| #[trigger] is_keyword(b, k) && is_keyword(a, k);
        assert(is_keyword(a, k) && is_keyword(b, k));
    }
}

} // verus!
