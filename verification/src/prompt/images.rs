//! Images in tool results: `[[IMAGE:` in front of a data URI and `]]` behind
//! it.

use crate::text;
use crate::text::{chars_of, find_at, is_blank, string_of};
use vstd::prelude::*;

verus! {

/// What an image starts with.
pub const IMAGE_START: &'static str = "[[IMAGE:";

/// What an image ends with.
pub const IMAGE_END: &'static str = "]]";

/// The text, unless it is blank.
pub open spec fn shown_text(t: Seq<char>) -> Seq<Seq<char>> {
    if text::trim(t).len() == 0 {
        Seq::empty()
    } else {
        seq![t]
    }
}

/// The first image of a result: where its mark stands, and where its data URI
/// ends if it does.
pub open spec fn first_image(s: Seq<char>) -> Option<(int, Option<int>)> {
    match text::find_from(s, IMAGE_START@, 0) {
        Some(k) => Some((k, text::find_from(s, IMAGE_END@, k + IMAGE_START@.len()))),
        None => None,
    }
}

/// The first image lies within the result.
pub proof fn lemma_first_image(s: Seq<char>)
    ensures
        first_image(s) matches Some(p) ==> {
            &&& 0 <= p.0
            &&& p.0 + IMAGE_START@.len() <= s.len()
            &&& p.1 matches Some(e) ==> p.0 + IMAGE_START@.len() <= e && e + IMAGE_END@.len()
                <= s.len()
        },
        IMAGE_START@.len() == 8,
        IMAGE_END@.len() == 2,
{
    reveal_strlit("[[IMAGE:");
    reveal_strlit("]]");
    text::lemma_find_from(s, IMAGE_START@, 0);
    if let Some(p) = first_image(s) {
        text::lemma_find_from(s, IMAGE_END@, p.0 + IMAGE_START@.len());
    }
}

/// The texts around the images that are not blank. Nothing behind an image
/// that does not end is text.
pub open spec fn texts_in(s: Seq<char>) -> Seq<Seq<char>>
    decreases s.len(),
{
    proof {
        lemma_first_image(s);
    }
    match first_image(s) {
        Some(p) => shown_text(s.take(p.0)) + (match p.1 {
            Some(e) => texts_in(s.skip(e + IMAGE_END@.len())),
            None => Seq::empty(),
        }),
        None => shown_text(s),
    }
}

/// The data URIs of the images that end.
pub open spec fn images_in(s: Seq<char>) -> Seq<Seq<char>>
    decreases s.len(),
{
    proof {
        lemma_first_image(s);
    }
    match first_image(s) {
        Some(p) => match p.1 {
            Some(e) => seq![s.subrange(p.0 + IMAGE_START@.len(), e)] + images_in(
                s.skip(e + IMAGE_END@.len()),
            ),
            None => Seq::empty(),
        },
        None => Seq::empty(),
    }
}

/// Searching in the rest of a text is searching in the text from there.
proof fn lemma_find_rest(s: Seq<char>, p: Seq<char>, pos: int, from: int)
    requires
        0 <= pos <= from <= s.len(),
    ensures
        text::find_from(s.skip(pos), p, from - pos) == (match text::find_from(s, p, from) {
            Some(k) => Some(k - pos),
            None => None::<int>,
        }),
    decreases s.len() + 1 - from,
{
    let t = s.skip(pos);
    if from + p.len() <= s.len() {
        assert(t.subrange(from - pos, from - pos + p.len()) =~= s.subrange(from, from + p.len()));
    }
    if from < s.len() {
        lemma_find_rest(s, p, pos, from + 1);
    }
}

/// The texts and the images of a result.
pub fn split_images(result: &str) -> (r: (Vec<String>, Vec<String>))
    ensures
        text::texts(r.0@) == texts_in(result@),
        text::texts(r.1@) == images_in(result@),
{
    let cs = chars_of(result);
    let n: usize = cs.len();
    let start = chars_of(IMAGE_START);
    let end = chars_of(IMAGE_END);
    let ghost s = result@;
    let mut parts: Vec<String> = Vec::new();
    let mut images: Vec<String> = Vec::new();
    let mut pos: usize = 0;
    proof {
        assert(s.skip(0) =~= s);
        assert(text::texts(parts@) + texts_in(s) =~= texts_in(s));
        assert(text::texts(images@) + images_in(s) =~= images_in(s));
        lemma_first_image(s);
    }
    loop
        invariant
            pos <= n == cs@.len(),
            cs@ == s,
            s == result@,
            start@ == IMAGE_START@,
            end@ == IMAGE_END@,
            start@.len() == 8,
            end@.len() == 2,
            text::texts(parts@) + texts_in(s.skip(pos as int)) == texts_in(s),
            text::texts(images@) + images_in(s.skip(pos as int)) == images_in(s),
        decreases n - pos,
    {
        let k: usize = match find_at(cs.as_slice(), start.as_slice(), pos) {
            Some(k) => k,
            None => {
                let rest = string_of(cs.as_slice(), pos, n);
                proof {
                    assert(rest@ =~= s.skip(pos as int));
                    lemma_find_rest(s, IMAGE_START@, pos as int, pos as int);
                }
                let ghost p0 = parts@;
                if !is_blank(rest.as_str()) {
                    parts.push(rest);
                    proof {
                        assert(text::texts(parts@) =~= text::texts(p0).push(rest@));
                    }
                }
                proof {
                    assert(text::texts(parts@) =~= text::texts(p0) + texts_in(rest@));
                    assert(text::texts(images@) =~= text::texts(images@) + images_in(rest@));
                }
                return (parts, images);
            },
        };
        let ghost rest = s.skip(pos as int);
        let ghost parts0 = text::texts(parts@);
        let ghost images0 = text::texts(images@);
        proof {
            text::lemma_find_from(s, IMAGE_START@, pos as int);
            lemma_find_rest(s, IMAGE_START@, pos as int, pos as int);
            lemma_find_rest(s, IMAGE_END@, pos as int, k + 8);
            text::lemma_find_from(s, IMAGE_END@, k + 8);
        }
        let before = string_of(cs.as_slice(), pos, k);
        proof {
            assert(before@ =~= rest.take(k - pos));
        }
        if !is_blank(before.as_str()) {
            let ghost p0 = parts@;
            parts.push(before);
            proof {
                assert(text::texts(parts@) =~= text::texts(p0).push(before@));
            }
        }
        proof {
            assert(text::texts(parts@) =~= parts0 + shown_text(before@));
        }
        match find_at(cs.as_slice(), end.as_slice(), k + 8) {
            Some(e) => {
                let uri = string_of(cs.as_slice(), k + 8, e);
                let ghost i0 = images@;
                images.push(uri);
                proof {
                    assert(text::texts(images@) =~= text::texts(i0).push(uri@));
                    assert(uri@ =~= rest.subrange(k - pos + 8, e - pos));
                    assert(rest.skip(e - pos + 2) =~= s.skip(e + 2));
                    assert(text::texts(parts@) + texts_in(s.skip(e + 2)) =~= parts0 + texts_in(
                        rest,
                    ));
                    assert(text::texts(images@) + images_in(s.skip(e + 2)) =~= images0
                        + images_in(rest));
                }
                pos = e + 2;
            },
            None => {
                proof {
                    assert(text::texts(parts@) =~= parts0 + texts_in(rest));
                    assert(text::texts(images@) =~= images0 + images_in(rest));
                }
                return (parts, images);
            },
        }
    }
}

/// A result with an image in it is taken apart: what stands in front of the
/// image is text where it is not blank, what stands between the marks is the
/// image, and what stands behind it is taken apart in turn.
pub proof fn law_image_is_taken_out(a: Seq<char>, uri: Seq<char>, b: Seq<char>)
    requires
        ({
            let s = a + IMAGE_START@ + uri + IMAGE_END@ + b;
            let n = a.len() + IMAGE_START@.len();
            &&& forall|i: int|
                0 <= i < a.len() ==> !#[trigger] text::occurs_at(s, IMAGE_START@, i)
            &&& forall|i: int|
                n <= i < n + uri.len() ==> !#[trigger] text::occurs_at(s, IMAGE_END@, i)
        }),
    ensures
        ({
            let s = a + IMAGE_START@ + uri + IMAGE_END@ + b;
            &&& images_in(s) == seq![uri] + images_in(b)
            &&& text::trim(a).len() > 0 ==> texts_in(s) == seq![a] + texts_in(b)
            &&& text::trim(a).len() == 0 ==> texts_in(s) == texts_in(b)
        }),
{
    let s = a + IMAGE_START@ + uri + IMAGE_END@ + b;
    let k = a.len() as int;
    let n = k + IMAGE_START@.len();
    let e = n + uri.len();
    assert(s.subrange(k, n) =~= IMAGE_START@);
    assert(s.subrange(e, e + IMAGE_END@.len()) =~= IMAGE_END@);
    assert(text::occurs_at(s, IMAGE_START@, k));
    assert(text::occurs_at(s, IMAGE_END@, e));
    text::lemma_found_first(s, IMAGE_START@, 0, k);
    text::lemma_found_first(s, IMAGE_END@, n, e);
    assert(s.take(k) =~= a);
    assert(s.subrange(n, e) =~= uri);
    assert(s.skip(e + IMAGE_END@.len()) =~= b);
    if text::trim(a).len() == 0 {
        assert(shown_text(a) + texts_in(b) =~= texts_in(b));
    }
}

/// A result without an image is one text, unless it is blank.
pub proof fn law_plain_result_is_text(s: Seq<char>)
    requires
        !text::contains(s, IMAGE_START@),
    ensures
        images_in(s).len() == 0,
        text::trim(s).len() > 0 ==> texts_in(s) == seq![s],
        text::trim(s).len() == 0 ==> texts_in(s).len() == 0,
{
    text::lemma_contains_find(s, IMAGE_START@);
}

} // verus!
