//! JSON values and their text.

use crate::order;
use crate::order::str_before;
use crate::seqs;
use crate::text;
use crate::text::str_eq;
use vstd::prelude::*;

verus! {

/// `serde_json::Value`, carried from the parser to the conversion below.
#[verifier::external_type_specification]
#[verifier::external_body]
pub struct ExValue(serde_json::Value);

/// A JSON value. A number is kept as its text, an object as its members.
#[derive(Debug, PartialEq)]
pub enum Json {
    Null,
    Bool(bool),
    Number(String),
    Text(String),
    List(Vec<Json>),
    Object(Vec<(String, Json)>),
}

/// A JSON value as mathematical data.
pub enum JsonView {
    Null,
    Bool(bool),
    Number(Seq<char>),
    Text(Seq<char>),
    List(Seq<JsonView>),
    Object(Seq<(Seq<char>, JsonView)>),
}

/// A JSON value as mathematical data.
pub open spec fn json_view(j: Json) -> JsonView
    decreases j,
{
    match j {
        Json::Null => JsonView::Null,
        Json::Bool(b) => JsonView::Bool(b),
        Json::Number(n) => JsonView::Number(n@),
        Json::Text(t) => JsonView::Text(t@),
        Json::List(v) => JsonView::List(list_view(v@)),
        Json::Object(v) => JsonView::Object(members_view(v@)),
    }
}

/// A list of JSON values as mathematical data.
pub open spec fn list_view(s: Seq<Json>) -> Seq<JsonView>
    decreases s,
{
    if s.len() == 0 {
        Seq::empty()
    } else {
        list_view(s.drop_last()).push(json_view(s.last()))
    }
}

/// The members of an object as mathematical data.
pub open spec fn members_view(s: Seq<(String, Json)>) -> Seq<(Seq<char>, JsonView)>
    decreases s,
{
    if s.len() == 0 {
        Seq::empty()
    } else {
        members_view(s.drop_last()).push((s.last().0@, json_view(s.last().1)))
    }
}

impl View for Json {
    type V = JsonView;

    open spec fn view(&self) -> JsonView {
        json_view(*self)
    }
}

/// The view of the members, index by index.
pub proof fn lemma_members_view(m: Seq<(String, Json)>)
    ensures
        members_view(m).len() == m.len(),
        forall|k: int| 0 <= k < m.len() ==> #[trigger] members_view(m)[k] == (m[k].0@, m[k].1@),
    decreases m.len(),
{
    if m.len() > 0 {
        lemma_members_view(m.drop_last());
    }
}

/// The view of a list, index by index.
pub proof fn lemma_list_view(l: Seq<Json>)
    ensures
        list_view(l).len() == l.len(),
        forall|k: int| 0 <= k < l.len() ==> #[trigger] list_view(l)[k] == l[k]@,
    decreases l.len(),
{
    if l.len() > 0 {
        lemma_list_view(l.drop_last());
    }
}

/// Adding a member to an object adds it to the view.
pub proof fn lemma_members_push(m: Seq<(String, Json)>, k: String, v: Json)
    ensures
        members_view(m.push((k, v))) == members_view(m).push((k@, v@)),
{
    assert(m.push((k, v)).drop_last() =~= m);
}

/// Adding a value to a list adds it to the view.
pub proof fn lemma_list_push(l: Seq<Json>, v: Json)
    ensures
        list_view(l.push(v)) == list_view(l).push(v@),
{
    assert(l.push(v).drop_last() =~= l);
}

// ---------------------------------------------------------------------------
// Reading
// ---------------------------------------------------------------------------

/// What `serde_json::from_str` makes of a text: the value that it denotes, or
/// nothing where it is not JSON.
pub uninterp spec fn parsed(text: Seq<char>) -> Option<JsonView>;

/// Converts a `serde_json::Value`, variant by variant. A number becomes its
/// text, an object the list of its members.
#[verifier::external_body]
fn convert(v: serde_json::Value) -> (r: Json) {
    match v {
        serde_json::Value::Null => Json::Null,
        serde_json::Value::Bool(b) => Json::Bool(b),
        serde_json::Value::Number(n) => Json::Number(n.to_string()),
        serde_json::Value::String(s) => Json::Text(s),
        serde_json::Value::Array(a) => Json::List(a.into_iter().map(convert).collect()),
        serde_json::Value::Object(m) => Json::Object(
            m.into_iter().map(|(k, v)| (k, convert(v))).collect(),
        ),
    }
}

/// Whether the keys of an object rise from one to the next.
pub open spec fn keys_rise(m: Seq<(Seq<char>, JsonView)>) -> bool {
    forall|i: int, j: int|
        0 <= i < j < m.len() ==> order::before((#[trigger] m[i]).0, (#[trigger] m[j]).0)
}

/// Whether a value is written in the form in which it is read: the keys of its
/// objects rise, its numbers are natural ones of 64 bits, and it is no deeper
/// than that.
pub open spec fn is_regular(v: JsonView, depth: nat) -> bool
    decreases depth,
{
    match v {
        JsonView::Number(n) => exists|k: u64| n == #[trigger] text::dec(k as nat),
        JsonView::List(l) => depth > 0 && forall|i: int|
            0 <= i < l.len() ==> is_regular(#[trigger] l[i], (depth - 1) as nat),
        JsonView::Object(m) => depth > 0 && keys_rise(m) && forall|i: int|
            0 <= i < m.len() ==> is_regular((#[trigger] m[i]).1, (depth - 1) as nat),
        _ => true,
    }
}

/// `serde_json::from_str::<Value>`: the value that `text` denotes, or nothing
/// where it fails. The contract names the result. It also says that the
/// compact text of a regular value, no more than a hundred levels deep, is read
/// back as that value: `serde_json` reads what it writes, keeps the members of
/// an object in the order of their keys, and takes up to 127 levels.
#[verifier::external_body]
pub(crate) fn parse(text: &str) -> (r: Option<Json>)
    ensures
        parsed(text@) == (match r {
            Some(j) => Some(j@),
            None => None::<JsonView>,
        }),
        forall|v: JsonView|
            #[trigger] json_text(v) == text@ && is_regular(v, 100) ==> r is Some && r->0@ == v,
{
    serde_json::from_str::<serde_json::Value>(text).ok().map(convert)
}

/// The member of that name among the members of an object.
pub open spec fn member(m: Seq<(Seq<char>, JsonView)>, key: Seq<char>) -> Option<JsonView>
    decreases m.len(),
{
    if m.len() == 0 {
        None
    } else if m.last().0 == key {
        Some(m.last().1)
    } else {
        member(m.drop_last(), key)
    }
}

impl JsonView {
    /// The member of that name where this is an object.
    pub open spec fn get(self, key: Seq<char>) -> Option<JsonView> {
        match self {
            JsonView::Object(m) => member(m, key),
            _ => None,
        }
    }

    /// The string where this is one.
    pub open spec fn text(self) -> Option<Seq<char>> {
        match self {
            JsonView::Text(t) => Some(t),
            _ => None,
        }
    }

    /// The member of that name where it is a string.
    pub open spec fn get_text(self, key: Seq<char>) -> Option<Seq<char>> {
        match self.get(key) {
            Some(v) => v.text(),
            None => None,
        }
    }
}

/// The member of that name among the members of an object.
pub fn find_member<'a>(m: &'a Vec<(String, Json)>, key: &str) -> (r: Option<&'a Json>)
    ensures
        member(members_view(m@), key@) == (match r {
            Some(j) => Some(j@),
            None => None::<JsonView>,
        }),
{
    let mut i: usize = m.len();
    proof {
        assert(m@.take(i as int) =~= m@);
    }
    while i > 0
        invariant
            0 <= i <= m@.len(),
            member(members_view(m@), key@) == member(members_view(m@.take(i as int)), key@),
        decreases i,
    {
        proof {
            let t = m@.take(i as int);
            assert(t.drop_last() =~= m@.take(i - 1));
            assert(members_view(t).drop_last() =~= members_view(t.drop_last()));
        }
        i -= 1;
        if str_eq(m[i].0.as_str(), key) {
            return Some(&m[i].1);
        }
    }
    None
}

/// The member of that name among the members of an object, where it is a
/// string.
pub open spec fn member_text(m: Seq<(Seq<char>, JsonView)>, key: Seq<char>) -> Option<Seq<char>> {
    match member(m, key) {
        Some(v) => v.text(),
        None => None,
    }
}

/// The member of that name among the members of an object, where it is a
/// string.
pub fn find_text<'a>(m: &'a Vec<(String, Json)>, key: &str) -> (r: Option<&'a str>)
    ensures
        member_text(members_view(m@), key@) == (match r {
            Some(t) => Some(t@),
            None => None::<Seq<char>>,
        }),
{
    match find_member(m, key) {
        Some(j) => j.text(),
        None => None,
    }
}

impl Clone for Json {
    fn clone(&self) -> (r: Self)
        ensures
            r@ == self@,
        decreases self,
    {
        match self {
            Json::Null => Json::Null,
            Json::Bool(b) => Json::Bool(*b),
            Json::Number(n) => Json::Number(n.clone()),
            Json::Text(t) => Json::Text(t.clone()),
            Json::List(v) => {
                let mut out: Vec<Json> = Vec::new();
                let mut i: usize = 0;
                while i < v.len()
                    invariant
                        0 <= i <= v@.len(),
                        *self == Json::List(*v),
                        list_view(out@) == list_view(v@.take(i as int)),
                    decreases v@.len() - i,
                {
                    proof {
                        assert(decreases_to!(*self => self->List_0));
                        assert(decreases_to!(*v => v@));
                        assert(decreases_to!(v@ => v@[i as int]));
                        assert(v@.take(i + 1) =~= v@.take(i as int).push(v@[i as int]));
                        lemma_list_push(v@.take(i as int), v@[i as int]);
                    }
                    let ghost before = out@;
                    let c = v[i].clone();
                    out.push(c);
                    proof {
                        lemma_list_push(before, c);
                    }
                    i += 1;
                }
                proof {
                    assert(v@.take(i as int) =~= v@);
                }
                Json::List(out)
            },
            Json::Object(m) => Json::Object(clone_members(m)),
        }
    }
}

/// A copy of the members of an object.
pub fn clone_members(m: &Vec<(String, Json)>) -> (r: Vec<(String, Json)>)
    ensures
        members_view(r@) == members_view(m@),
    decreases m,
{
    let mut out: Vec<(String, Json)> = Vec::new();
    let mut i: usize = 0;
    while i < m.len()
        invariant
            0 <= i <= m@.len(),
            members_view(out@) == members_view(m@.take(i as int)),
        decreases m@.len() - i,
    {
        proof {
            assert(decreases_to!(*m => m@));
            assert(decreases_to!(m@ => m@[i as int]));
            assert(decreases_to!(m@[i as int] => m@[i as int].1));
            assert(m@.take(i + 1) =~= m@.take(i as int).push(m@[i as int]));
            lemma_members_push(m@.take(i as int), m@[i as int].0, m@[i as int].1);
        }
        let ghost before = out@;
        let k = m[i].0.clone();
        let v = m[i].1.clone();
        out.push((k, v));
        proof {
            lemma_members_push(before, k, v);
        }
        i += 1;
    }
    proof {
        assert(m@.take(i as int) =~= m@);
    }
    out
}

/// Whether a member has another name.
pub open spec fn named_otherwise(key: Seq<char>) -> spec_fn((Seq<char>, JsonView)) -> bool {
    |p: (Seq<char>, JsonView)| p.0 != key
}

/// The members of an object but for those of one name.
pub open spec fn without(m: Seq<(Seq<char>, JsonView)>, key: Seq<char>) -> Seq<
    (Seq<char>, JsonView),
> {
    seqs::select(m, named_otherwise(key))
}

/// The members of an object but for those of one name.
pub fn without_member(m: &Vec<(String, Json)>, key: &str) -> (r: Vec<(String, Json)>)
    ensures
        members_view(r@) == without(members_view(m@), key@),
{
    let ghost all = members_view(m@);
    let ghost f = named_otherwise(key@);
    let mut out: Vec<(String, Json)> = Vec::new();
    let mut i: usize = 0;
    proof {
        lemma_members_view(m@);
        assert(all.skip(0) =~= all);
        assert(members_view(out@) + seqs::select(all, f) =~= seqs::select(all, f));
    }
    while i < m.len()
        invariant
            0 <= i <= m@.len() == all.len(),
            all == members_view(m@),
            f == named_otherwise(key@),
            forall|k: int| 0 <= k < m@.len() ==> #[trigger] all[k] == (m@[k].0@, m@[k].1@),
            members_view(out@) + seqs::select(all.skip(i as int), f) == seqs::select(all, f),
        decreases m@.len() - i,
    {
        let ghost rest = all.skip(i as int);
        let ghost before = out@;
        proof {
            assert(rest[0] == all[i as int]);
            assert(rest.skip(1) =~= all.skip(i + 1));
        }
        if !str_eq(m[i].0.as_str(), key) {
            let k = m[i].0.clone();
            let v = m[i].1.clone();
            out.push((k, v));
            proof {
                lemma_members_push(before, k, v);
                assert(members_view(out@) + seqs::select(rest.skip(1), f) =~= members_view(before)
                    + (seq![rest[0]] + seqs::select(rest.skip(1), f)));
            }
        }
        i += 1;
    }
    proof {
        assert(seqs::select(all.skip(i as int), f) =~= Seq::empty());
    }
    out
}

/// No member of a name is left once those of that name are taken out.
pub proof fn lemma_without(m: Seq<(Seq<char>, JsonView)>, key: Seq<char>)
    ensures
        member(without(m, key), key) is None,
{
    let f = named_otherwise(key);
    let w = seqs::select(m, f);
    seqs::lemma_select_holds(m, f);
    lemma_member_contained(w, key);
    if let Some(v) = member(w, key) {
        let i = choose|i: int| 0 <= i < w.len() && w[i] == (key, v);
        assert(f(w[i]));
    }
}

/// The members of two objects, each of which has its members in the order of
/// their names, in that order.
pub open spec fn merged(
    a: Seq<(Seq<char>, JsonView)>,
    b: Seq<(Seq<char>, JsonView)>,
) -> Seq<(Seq<char>, JsonView)>
    decreases a.len() + b.len(),
{
    if b.len() == 0 {
        a
    } else if a.len() == 0 {
        b
    } else if order::before(b[0].0, a[0].0) {
        seq![b[0]] + merged(a, b.skip(1))
    } else {
        seq![a[0]] + merged(a.skip(1), b)
    }
}

/// The members of two objects, in the order of their names.
pub fn merge_members(a: &Vec<(String, Json)>, b: &Vec<(String, Json)>) -> (r: Vec<(String, Json)>)
    ensures
        members_view(r@) == merged(members_view(a@), members_view(b@)),
{
    let ghost av = members_view(a@);
    let ghost bv = members_view(b@);
    let mut out: Vec<(String, Json)> = Vec::new();
    let mut i: usize = 0;
    let mut j: usize = 0;
    proof {
        lemma_members_view(a@);
        lemma_members_view(b@);
        assert(av.skip(0) =~= av);
        assert(bv.skip(0) =~= bv);
        assert(members_view(out@) + merged(av, bv) =~= merged(av, bv));
    }
    while i < a.len() || j < b.len()
        invariant
            0 <= i <= a@.len() == av.len(),
            0 <= j <= b@.len() == bv.len(),
            forall|k: int| 0 <= k < a@.len() ==> #[trigger] av[k] == (a@[k].0@, a@[k].1@),
            forall|k: int| 0 <= k < b@.len() ==> #[trigger] bv[k] == (b@[k].0@, b@[k].1@),
            members_view(out@) + merged(av.skip(i as int), bv.skip(j as int)) == merged(av, bv),
        decreases (a@.len() - i) + (b@.len() - j),
    {
        let ghost ar = av.skip(i as int);
        let ghost br = bv.skip(j as int);
        let ghost before = out@;
        let second = if j == b.len() {
            false
        } else if i == a.len() {
            true
        } else {
            str_before(b[j].0.as_str(), a[i].0.as_str())
        };
        if second {
            let k = b[j].0.clone();
            let v = b[j].1.clone();
            out.push((k, v));
            proof {
                lemma_members_push(before, k, v);
                assert(br[0] == bv[j as int]);
                assert(br.skip(1) =~= bv.skip(j + 1));
                assert(merged(ar, br) =~= seq![br[0]] + merged(ar, br.skip(1))) by {
                    if ar.len() == 0 {
                        assert(merged(ar, br.skip(1)) =~= br.skip(1));
                    }
                }
                assert(members_view(out@) + merged(ar, br.skip(1)) =~= members_view(before) + (seq![
                    br[0],
                ] + merged(ar, br.skip(1))));
            }
            j += 1;
        } else {
            let k = a[i].0.clone();
            let v = a[i].1.clone();
            out.push((k, v));
            proof {
                lemma_members_push(before, k, v);
                assert(ar[0] == av[i as int]);
                assert(ar.skip(1) =~= av.skip(i + 1));
                assert(merged(ar, br) =~= seq![ar[0]] + merged(ar.skip(1), br)) by {
                    if br.len() == 0 {
                        assert(merged(ar.skip(1), br) =~= ar.skip(1));
                    }
                }
                assert(members_view(out@) + merged(ar.skip(1), br) =~= members_view(before) + (seq![
                    ar[0],
                ] + merged(ar.skip(1), br)));
            }
            i += 1;
        }
    }
    proof {
        assert(av.skip(i as int) =~= Seq::empty());
        assert(bv.skip(j as int) =~= Seq::empty());
    }
    out
}

/// Members of two objects that have no name in common are merged into members
/// whose names rise, and into those alone.
pub proof fn lemma_merged(a: Seq<(Seq<char>, JsonView)>, b: Seq<(Seq<char>, JsonView)>)
    requires
        keys_rise(a),
        keys_rise(b),
        forall|i: int, j: int|
            0 <= i < a.len() && 0 <= j < b.len() ==> (#[trigger] a[i]).0 != (#[trigger] b[j]).0,
    ensures
        keys_rise(merged(a, b)),
        forall|x: (Seq<char>, JsonView)| #[trigger]
            merged(a, b).contains(x) <==> a.contains(x) || b.contains(x),
    decreases a.len() + b.len(),
{
    if a.len() > 0 && b.len() > 0 {
        let first_b = order::before(b[0].0, a[0].0);
        let (p, q) = if first_b {
            (b, a)
        } else {
            (a, b)
        };
        // `p` gives the first member.
        let head = p[0];
        let t = p.skip(1);
        order::law_order_total(a[0].0, b[0].0);
        assert(a[0].0 != b[0].0);
        assert(order::before(head.0, q[0].0));
        let tail = if first_b {
            merged(a, t)
        } else {
            merged(t, b)
        };
        assert forall|i: int, j: int| 0 <= i < j < t.len() implies order::before(
            (#[trigger] t[i]).0,
            (#[trigger] t[j]).0,
        ) by {
            assert(order::before(p[i + 1].0, p[j + 1].0));
        }
        assert forall|i: int, j: int| 0 <= i < t.len() && 0 <= j < q.len() implies (
        #[trigger] t[i]).0 != (#[trigger] q[j]).0 by {
            assert(t[i] == p[i + 1]);
            if first_b {
                assert(a[j].0 != b[i + 1].0);
            } else {
                assert(a[i + 1].0 != b[j].0);
            }
        }
        if first_b {
            lemma_merged(a, t);
        } else {
            lemma_merged(t, b);
        }
        let m = merged(a, b);
        assert(m =~= seq![head] + tail);
        assert forall|x: (Seq<char>, JsonView)| #[trigger] p.contains(x) <==> x == head || t.contains(
            x,
        ) by {
            if p.contains(x) && x != head {
                let i = choose|i: int| 0 <= i < p.len() && p[i] == x;
                assert(t[i - 1] == x);
            }
            if t.contains(x) {
                let i = choose|i: int| 0 <= i < t.len() && t[i] == x;
                assert(p[i + 1] == x);
            }
        }
        assert forall|x: (Seq<char>, JsonView)| #[trigger] m.contains(x) <==> a.contains(x)
            || b.contains(x) by {
            if m.contains(x) && x != head {
                let i = choose|i: int| 0 <= i < m.len() && m[i] == x;
                assert(tail[i - 1] == x);
                assert(tail.contains(x));
            }
            if tail.contains(x) {
                let i = choose|i: int| 0 <= i < tail.len() && tail[i] == x;
                assert(m[i + 1] == x);
            }
            assert(m[0] == head);
            assert(p.contains(x) <==> x == head || t.contains(x));
        }
        assert forall|i: int, j: int| 0 <= i < j < m.len() implies order::before(
            (#[trigger] m[i]).0,
            (#[trigger] m[j]).0,
        ) by {
            assert(m[j] == tail[j - 1]);
            if i > 0 {
                assert(order::before(tail[i - 1].0, tail[j - 1].0));
            } else {
                assert(tail.contains(tail[j - 1]));
                if t.contains(tail[j - 1]) {
                    let k = choose|k: int| 0 <= k < t.len() && t[k] == tail[j - 1];
                    assert(order::before(p[0].0, p[k + 1].0));
                } else {
                    let k = choose|k: int| 0 <= k < q.len() && q[k] == tail[j - 1];
                    if k > 0 {
                        assert(order::before(q[0].0, q[k].0));
                        order::law_order_transitive(head.0, q[0].0, q[k].0);
                    }
                }
            }
        }
    }
}

/// Where a condition holds of the members of the second object alone, it picks
/// those out of the merged ones.
pub proof fn lemma_merged_select(
    a: Seq<(Seq<char>, JsonView)>,
    b: Seq<(Seq<char>, JsonView)>,
    f: spec_fn((Seq<char>, JsonView)) -> bool,
)
    requires
        forall|i: int| 0 <= i < a.len() ==> !f(#[trigger] a[i]),
        forall|i: int| 0 <= i < b.len() ==> f(#[trigger] b[i]),
    ensures
        seqs::select(merged(a, b), f) == b,
    decreases a.len() + b.len(),
{
    let m = merged(a, b);
    if a.len() == 0 && b.len() == 0 {
        assert(seqs::select(m, f) =~= b);
    } else if b.len() > 0 && (a.len() == 0 || order::before(b[0].0, a[0].0)) {
        let t = b.skip(1);
        assert forall|i: int| 0 <= i < t.len() implies f(#[trigger] t[i]) by {
            assert(t[i] == b[i + 1]);
        }
        lemma_merged_select(a, t, f);
        assert(m =~= seq![b[0]] + merged(a, t));
        assert(m.skip(1) =~= merged(a, t));
        assert(seq![b[0]] + t =~= b);
    } else {
        let t = a.skip(1);
        assert forall|i: int| 0 <= i < t.len() implies !f(#[trigger] t[i]) by {
            assert(t[i] == a[i + 1]);
        }
        lemma_merged_select(t, b, f);
        assert(m =~= seq![a[0]] + merged(t, b));
        assert(m.skip(1) =~= merged(t, b));
    }
}

/// Some of the members whose names rise have names that rise.
pub proof fn lemma_select_rises(
    m: Seq<(Seq<char>, JsonView)>,
    f: spec_fn((Seq<char>, JsonView)) -> bool,
)
    requires
        keys_rise(m),
    ensures
        keys_rise(seqs::select(m, f)),
    decreases m.len(),
{
    if m.len() > 0 {
        let t = m.skip(1);
        assert forall|i: int, j: int| 0 <= i < j < t.len() implies order::before(
            (#[trigger] t[i]).0,
            (#[trigger] t[j]).0,
        ) by {
            assert(order::before(m[i + 1].0, m[j + 1].0));
        }
        lemma_select_rises(t, f);
        let rest = seqs::select(t, f);
        let r = seqs::select(m, f);
        if f(m[0]) {
            seqs::lemma_select_holds(t, f);
            assert(r =~= seq![m[0]] + rest);
            assert forall|i: int, j: int| 0 <= i < j < r.len() implies order::before(
                (#[trigger] r[i]).0,
                (#[trigger] r[j]).0,
            ) by {
                assert(r[j] == rest[j - 1]);
                if i > 0 {
                    assert(order::before(rest[i - 1].0, rest[j - 1].0));
                } else {
                    assert(t.contains(rest[j - 1]));
                    let k = choose|k: int| 0 <= k < t.len() && t[k] == rest[j - 1];
                    assert(order::before(m[0].0, m[k + 1].0));
                }
            }
        }
    }
}

/// Members whose names rise have no name twice.
pub proof fn lemma_rising_unique(
    m: Seq<(Seq<char>, JsonView)>,
    x: (Seq<char>, JsonView),
    y: (Seq<char>, JsonView),
)
    requires
        keys_rise(m),
        m.contains(x),
        m.contains(y),
        x.0 == y.0,
    ensures
        x == y,
{
    let i = choose|i: int| 0 <= i < m.len() && m[i] == x;
    let j = choose|j: int| 0 <= j < m.len() && m[j] == y;
    order::law_order_irreflexive(x.0);
    if i < j {
        assert(order::before(m[i].0, m[j].0));
    }
    if j < i {
        assert(order::before(m[j].0, m[i].0));
    }
}

/// The same members in the order of their names are the same sequence.
pub proof fn lemma_rising_equal(a: Seq<(Seq<char>, JsonView)>, b: Seq<(Seq<char>, JsonView)>)
    requires
        keys_rise(a),
        keys_rise(b),
        forall|x: (Seq<char>, JsonView)| #[trigger] a.contains(x) <==> b.contains(x),
    ensures
        a == b,
    decreases a.len(),
{
    if a.len() == 0 {
        if b.len() > 0 {
            assert(b.contains(b[0]));
            assert(a.contains(b[0]));
        }
        assert(a =~= b);
    } else {
        assert(a.contains(a[0]));
        assert(b.contains(a[0]));
        assert(b.contains(b[0]));
        assert(a.contains(b[0]));
        let j = choose|j: int| 0 <= j < b.len() && b[j] == a[0];
        let i = choose|i: int| 0 <= i < a.len() && a[i] == b[0];
        assert(i == 0 && j == 0) by {
            order::law_order_total(a[0].0, b[0].0);
            if j > 0 {
                assert(order::before(b[0].0, b[j].0));
            }
            if i > 0 {
                assert(order::before(a[0].0, a[i].0));
            }
        }
        let p = a.skip(1);
        let q = b.skip(1);
        lemma_rest_rises(a);
        lemma_rest_rises(b);
        assert forall|x: (Seq<char>, JsonView)| #[trigger] p.contains(x) <==> q.contains(x) by {
            assert(p.contains(x) ==> a.contains(x));
            assert(q.contains(x) ==> b.contains(x));
            assert(a.contains(x) <==> b.contains(x));
        }
        lemma_rising_equal(p, q);
        assert(a =~= seq![a[0]] + p);
        assert(b =~= seq![b[0]] + q);
    }
}

/// Behind the first of some members whose names rise, the names rise, and
/// there are all of the members but the first.
proof fn lemma_rest_rises(m: Seq<(Seq<char>, JsonView)>)
    requires
        keys_rise(m),
        m.len() > 0,
    ensures
        keys_rise(m.skip(1)),
        forall|x: (Seq<char>, JsonView)| #[trigger]
            m.skip(1).contains(x) <==> m.contains(x) && x != m[0],
{
    let t = m.skip(1);
    assert forall|i: int, j: int| 0 <= i < j < t.len() implies order::before(
        (#[trigger] t[i]).0,
        (#[trigger] t[j]).0,
    ) by {
        assert(order::before(m[i + 1].0, m[j + 1].0));
    }
    assert forall|x: (Seq<char>, JsonView)| #[trigger] t.contains(x) <==> m.contains(x) && x
        != m[0] by {
        if t.contains(x) {
            let i = choose|i: int| 0 <= i < t.len() && t[i] == x;
            assert(m[i + 1] == x);
            assert(order::before(m[0].0, m[i + 1].0));
            order::law_order_irreflexive(m[0].0);
        }
        if m.contains(x) && x != m[0] {
            let i = choose|i: int| 0 <= i < m.len() && m[i] == x;
            assert(t[i - 1] == x);
        }
    }
}

/// What stands under a name is a member of that name, and none where there is
/// none.
pub proof fn lemma_member_contained(m: Seq<(Seq<char>, JsonView)>, key: Seq<char>)
    ensures
        member(m, key) matches Some(v) ==> m.contains((key, v)),
        member(m, key) is None ==> forall|i: int| 0 <= i < m.len() ==> (#[trigger] m[i]).0 != key,
    decreases m.len(),
{
    if m.len() > 0 {
        let p = m.drop_last();
        lemma_member_contained(p, key);
        if m.last().0 == key {
            assert(m[m.len() - 1] == (key, m.last().1));
        } else {
            if let Some(v) = member(p, key) {
                let i = choose|i: int| 0 <= i < p.len() && p[i] == (key, v);
                assert(m[i] == (key, v));
            } else {
                assert forall|i: int| 0 <= i < m.len() implies (#[trigger] m[i]).0 != key by {
                    if i < p.len() {
                        assert(m[i] == p[i]);
                    }
                }
            }
        }
    }
}

/// What stands under the name of a member, where the names rise, is its value.
pub proof fn lemma_rising_member(m: Seq<(Seq<char>, JsonView)>, i: int)
    requires
        keys_rise(m),
        0 <= i < m.len(),
    ensures
        member(m, m[i].0) == Some(m[i].1),
    decreases m.len(),
{
    let last = m.len() - 1;
    if i < last {
        assert(order::before(m[i].0, m[last].0));
        order::law_order_irreflexive(m[i].0);
        let p = m.drop_last();
        assert forall|a: int, b: int| 0 <= a < b < p.len() implies order::before(
            (#[trigger] p[a]).0,
            (#[trigger] p[b]).0,
        ) by {
            assert(order::before(m[a].0, m[b].0));
        }
        assert(p[i] == m[i]);
        lemma_rising_member(p, i);
    }
}

/// What stands under a name in merged members is what stands under it in one
/// of the two objects.
pub proof fn lemma_merged_member(
    a: Seq<(Seq<char>, JsonView)>,
    b: Seq<(Seq<char>, JsonView)>,
    key: Seq<char>,
)
    requires
        keys_rise(a),
        keys_rise(b),
        forall|i: int, j: int|
            0 <= i < a.len() && 0 <= j < b.len() ==> (#[trigger] a[i]).0 != (#[trigger] b[j]).0,
    ensures
        member(merged(a, b), key) == (match member(a, key) {
            Some(v) => Some(v),
            None => member(b, key),
        }),
{
    let m = merged(a, b);
    lemma_merged(a, b);
    lemma_member_contained(a, key);
    lemma_member_contained(b, key);
    lemma_member_contained(m, key);
    let found = match member(a, key) {
        Some(v) => Some(v),
        None => member(b, key),
    };
    match found {
        Some(v) => {
            assert(m.contains((key, v)));
            let i = choose|i: int| 0 <= i < m.len() && m[i] == (key, v);
            lemma_rising_member(m, i);
        },
        None => {
            if let Some(v) = member(m, key) {
                assert(m.contains((key, v)));
                if a.contains((key, v)) {
                    let i = choose|i: int| 0 <= i < a.len() && a[i] == (key, v);
                    assert(a[i].0 == key);
                } else {
                    let i = choose|i: int| 0 <= i < b.len() && b[i] == (key, v);
                    assert(b[i].0 == key);
                }
            }
        },
    }
}

/// The members of an object with another value for one name.
pub open spec fn with_member(
    m: Seq<(Seq<char>, JsonView)>,
    key: Seq<char>,
    v: JsonView,
) -> Seq<(Seq<char>, JsonView)> {
    Seq::new(
        m.len(),
        |i: int|
            if m[i].0 == key {
                (key, v)
            } else {
                m[i]
            },
    )
}

/// A value with another value for one name, where it is an object.
pub open spec fn with_value(o: JsonView, key: Seq<char>, v: JsonView) -> JsonView {
    match o {
        JsonView::Object(m) => JsonView::Object(with_member(m, key, v)),
        _ => o,
    }
}

/// A value with another value for one name, where it is an object.
pub fn replace_value(o: &Json, key: &str, v: &Json) -> (r: Json)
    ensures
        r@ == with_value(o@, key@, v@),
{
    match o {
        Json::Object(m) => Json::Object(replace_member(m, key, v)),
        _ => o.clone(),
    }
}

/// The members of an object with another text for one name.
pub fn replace_text(m: &Vec<(String, Json)>, key: &str, t: &str) -> (r: Vec<(String, Json)>)
    ensures
        members_view(r@) == with_member(members_view(m@), key@, JsonView::Text(t@)),
{
    let v = Json::Text(t.to_owned());
    replace_member(m, key, &v)
}

/// The members of an object with another value for one name.
fn replace_member(m: &Vec<(String, Json)>, key: &str, new: &Json) -> (r: Vec<(String, Json)>)
    ensures
        members_view(r@) == with_member(members_view(m@), key@, new@),
{
    let ghost mv = members_view(m@);
    let ghost want = with_member(mv, key@, new@);
    let mut out: Vec<(String, Json)> = Vec::new();
    let mut i: usize = 0;
    proof {
        lemma_members_view(m@);
        assert(members_view(out@) =~= want.take(0));
    }
    while i < m.len()
        invariant
            0 <= i <= m@.len(),
            mv == members_view(m@),
            mv.len() == m@.len(),
            forall|k: int| 0 <= k < m@.len() ==> #[trigger] mv[k] == (m@[k].0@, m@[k].1@),
            want == with_member(mv, key@, new@),
            members_view(out@) == want.take(i as int),
        decreases m@.len() - i,
    {
        let ghost before = out@;
        let k = m[i].0.clone();
        let v = if str_eq(k.as_str(), key) {
            new.clone()
        } else {
            m[i].1.clone()
        };
        out.push((k, v));
        proof {
            lemma_members_push(before, k, v);
            assert(mv[i as int] == (m@[i as int].0@, m@[i as int].1@));
            assert(want.take(i + 1) =~= want.take(i as int).push((k@, v@)));
        }
        i += 1;
    }
    proof {
        assert(want.take(i as int) =~= want);
    }
    out
}

/// Whether two values are the same.
pub fn same(a: &Json, b: &Json) -> (r: bool)
    ensures
        r == (a@ == b@),
    decreases a,
{
    match (a, b) {
        (Json::Null, Json::Null) => true,
        (Json::Bool(x), Json::Bool(y)) => *x == *y,
        (Json::Number(x), Json::Number(y)) => str_eq(x.as_str(), y.as_str()),
        (Json::Text(x), Json::Text(y)) => str_eq(x.as_str(), y.as_str()),
        (Json::List(x), Json::List(y)) => {
            proof {
                lemma_list_view(x@);
                lemma_list_view(y@);
            }
            if x.len() != y.len() {
                return false;
            }
            let mut i: usize = 0;
            while i < x.len()
                invariant
                    0 <= i <= x@.len() == y@.len(),
                    *a == Json::List(*x),
                    list_view(x@).len() == x@.len(),
                    list_view(y@).len() == y@.len(),
                    forall|k: int| 0 <= k < x@.len() ==> #[trigger] list_view(x@)[k] == x@[k]@,
                    forall|k: int| 0 <= k < y@.len() ==> #[trigger] list_view(y@)[k] == y@[k]@,
                    forall|k: int| 0 <= k < i ==> list_view(x@)[k] == #[trigger] list_view(y@)[k],
                    a@ == JsonView::List(list_view(x@)),
                    b@ == JsonView::List(list_view(y@)),
                decreases x@.len() - i,
            {
                proof {
                    assert(decreases_to!(*a => a->List_0));
                    assert(decreases_to!(*x => x@));
                    assert(decreases_to!(x@ => x@[i as int]));
                }
                if !same(&x[i], &y[i]) {
                    proof {
                        assert(list_view(x@)[i as int] != list_view(y@)[i as int]);
                    }
                    return false;
                }
                i += 1;
            }
            proof {
                assert(list_view(x@) =~= list_view(y@));
            }
            true
        },
        (Json::Object(x), Json::Object(y)) => {
            proof {
                lemma_members_view(x@);
                lemma_members_view(y@);
            }
            if x.len() != y.len() {
                return false;
            }
            let mut i: usize = 0;
            while i < x.len()
                invariant
                    0 <= i <= x@.len() == y@.len(),
                    *a == Json::Object(*x),
                    members_view(x@).len() == x@.len(),
                    members_view(y@).len() == y@.len(),
                    forall|k: int|
                        0 <= k < x@.len() ==> #[trigger] members_view(x@)[k] == (
                            x@[k].0@,
                            x@[k].1@,
                        ),
                    forall|k: int|
                        0 <= k < y@.len() ==> #[trigger] members_view(y@)[k] == (
                            y@[k].0@,
                            y@[k].1@,
                        ),
                    forall|k: int|
                        0 <= k < i ==> members_view(x@)[k] == #[trigger] members_view(y@)[k],
                    a@ == JsonView::Object(members_view(x@)),
                    b@ == JsonView::Object(members_view(y@)),
                decreases x@.len() - i,
            {
                proof {
                    assert(decreases_to!(*a => a->Object_0));
                    assert(decreases_to!(*x => x@));
                    assert(decreases_to!(x@ => x@[i as int]));
                    assert(decreases_to!(x@[i as int] => x@[i as int].1));
                }
                if !str_eq(x[i].0.as_str(), y[i].0.as_str()) || !same(&x[i].1, &y[i].1) {
                    proof {
                        assert(members_view(x@)[i as int] != members_view(y@)[i as int]);
                    }
                    return false;
                }
                i += 1;
            }
            proof {
                assert(members_view(x@) =~= members_view(y@));
            }
            true
        },
        _ => false,
    }
}

impl Json {
    /// The member of that name where this is an object.
    pub fn get(&self, key: &str) -> (r: Option<&Json>)
        ensures
            self@.get(key@) == (match r {
                Some(j) => Some(j@),
                None => None::<JsonView>,
            }),
    {
        match self {
            Json::Object(m) => find_member(m, key),
            _ => None,
        }
    }

    /// The string where this is one.
    pub fn text(&self) -> (r: Option<&str>)
        ensures
            self@.text() == (match r {
                Some(t) => Some(t@),
                None => None::<Seq<char>>,
            }),
    {
        match self {
            Json::Text(t) => Some(t.as_str()),
            _ => None,
        }
    }

    /// The member of that name where it is a string.
    pub fn get_text(&self, key: &str) -> (r: Option<&str>)
        ensures
            self@.get_text(key@) == (match r {
                Some(t) => Some(t@),
                None => None::<Seq<char>>,
            }),
    {
        match self.get(key) {
            Some(j) => j.text(),
            None => None,
        }
    }
}

// ---------------------------------------------------------------------------
// Writing
// ---------------------------------------------------------------------------

/// The hexadecimal digit of value `d`, in lower case.
pub open spec fn hex_digit(d: nat) -> char {
    if d < 10 {
        text::digit(d)
    } else {
        (87 + d) as char
    }
}

/// A byte as two hexadecimal digits.
pub open spec fn hex_byte(b: u8) -> Seq<char> {
    seq![hex_digit(b as nat / 16), hex_digit(b as nat % 16)]
}

/// `n` in hexadecimal.
pub open spec fn hex(n: nat) -> Seq<char>
    decreases n,
{
    if n < 16 {
        seq![hex_digit(n)]
    } else {
        hex(n / 16).push(hex_digit(n % 16))
    }
}

/// `n` in hexadecimal.
pub fn hexadecimal(n: u128) -> (r: String)
    ensures
        r@ == hex(n as nat),
    decreases n,
{
    let mut r = if n < 16 {
        String::new()
    } else {
        hexadecimal(n / 16)
    };
    r.push(hex_char((n % 16) as u8));
    r
}

fn hex_char(d: u8) -> (r: char)
    requires
        d < 16,
    ensures
        r == hex_digit(d as nat),
{
    if d < 10 {
        (48 + d) as char
    } else {
        (87 + d) as char
    }
}

/// A byte as two hexadecimal digits.
pub fn hex_of_byte(b: u8) -> (r: String)
    ensures
        r@ == hex_byte(b),
{
    let mut r = String::new();
    r.push(hex_char(b / 16));
    r.push(hex_char(b % 16));
    proof {
        assert(r@ =~= hex_byte(b));
    }
    r
}

/// How a character is written inside a JSON string.
pub open spec fn escaped(c: char) -> Seq<char> {
    if c == '"' || c == '\\' {
        seq!['\\', c]
    } else if c == '\n' {
        seq!['\\', 'n']
    } else if c == '\r' {
        seq!['\\', 'r']
    } else if c == '\t' {
        seq!['\\', 't']
    } else if c == '\u{8}' {
        seq!['\\', 'b']
    } else if c == '\u{c}' {
        seq!['\\', 'f']
    } else if (c as u32) < 0x20 {
        seq!['\\', 'u', '0', '0', hex_digit(c as nat / 16), hex_digit(c as nat % 16)]
    } else {
        seq![c]
    }
}

/// How a text is written inside a JSON string.
pub open spec fn escaped_all(s: Seq<char>) -> Seq<char>
    decreases s.len(),
{
    if s.len() == 0 {
        Seq::empty()
    } else {
        escaped_all(s.drop_last()) + escaped(s.last())
    }
}

/// A text as a JSON string.
pub open spec fn quoted(s: Seq<char>) -> Seq<char> {
    seq!['"'] + escaped_all(s) + seq!['"']
}

/// `serde_json::to_string` of a string: the string in quotes, with the
/// quote, the backslash and the control characters escaped.
#[verifier::external_body]
pub(crate) fn quote(s: &str) -> (r: String)
    ensures
        r@ == quoted(s@),
{
    serde_json::to_string(s).unwrap_or_default()
}

/// The compact JSON text of a value.
pub open spec fn json_text(v: JsonView) -> Seq<char>
    decreases v,
{
    match v {
        JsonView::Null => "null"@,
        JsonView::Bool(b) => if b {
            "true"@
        } else {
            "false"@
        },
        JsonView::Number(n) => n,
        JsonView::Text(t) => quoted(t),
        JsonView::List(l) => "["@ + list_text(l) + "]"@,
        JsonView::Object(m) => "{"@ + members_text(m) + "}"@,
    }
}

/// The values of a list in compact JSON, with commas between them.
pub open spec fn list_text(s: Seq<JsonView>) -> Seq<char>
    decreases s,
{
    if s.len() == 0 {
        Seq::empty()
    } else if s.len() == 1 {
        json_text(s[0])
    } else {
        list_text(s.drop_last()) + ","@ + json_text(s.last())
    }
}

/// The members of an object in compact JSON, with commas between them.
pub open spec fn members_text(s: Seq<(Seq<char>, JsonView)>) -> Seq<char>
    decreases s,
{
    if s.len() == 0 {
        Seq::empty()
    } else if s.len() == 1 {
        quoted(s[0].0) + ":"@ + json_text(s[0].1)
    } else {
        members_text(s.drop_last()) + ","@ + quoted(s.last().0) + ":"@ + json_text(s.last().1)
    }
}

proof fn lemma_views_take(s: Seq<Json>, i: int)
    requires
        0 <= i < s.len(),
    ensures
        list_view(s.take(i + 1)) == list_view(s.take(i)).push(json_view(s[i])),
        list_view(s.take(i)).len() == i,
    decreases i,
{
    assert(s.take(i + 1).drop_last() =~= s.take(i));
    if i > 0 {
        lemma_views_take(s, i - 1);
    }
}

proof fn lemma_members_take(s: Seq<(String, Json)>, i: int)
    requires
        0 <= i < s.len(),
    ensures
        members_view(s.take(i + 1)) == members_view(s.take(i)).push((s[i].0@, json_view(s[i].1))),
        members_view(s.take(i)).len() == i,
    decreases i,
{
    assert(s.take(i + 1).drop_last() =~= s.take(i));
    if i > 0 {
        lemma_members_take(s, i - 1);
    }
}

impl Json {
    /// The compact JSON text of the value.
    pub fn render(&self) -> (r: String)
        ensures
            r@ == json_text(self@),
        decreases self,
    {
        match self {
            Json::Null => "null".to_owned(),
            Json::Bool(b) => if *b {
                "true".to_owned()
            } else {
                "false".to_owned()
            },
            Json::Number(n) => n.clone(),
            Json::Text(t) => quote(t.as_str()),
            Json::List(v) => {
                let mut r = String::new();
                r.push_str("[");
                let mut i: usize = 0;
                proof {
                    assert(list_view(v@.take(0)) =~= Seq::empty());
                }
                while i < v.len()
                    invariant
                        0 <= i <= v@.len(),
                        *self == Json::List(*v),
                        r@ == "["@ + list_text(list_view(v@.take(i as int))),
                    decreases v@.len() - i,
                {
                    proof {
                        lemma_views_take(v@, i as int);
                        let after = list_view(v@.take(i + 1));
                        assert(after.drop_last() =~= list_view(v@.take(i as int)));
                    }
                    if i > 0 {
                        r.push_str(",");
                    }
                    proof {
                        assert(decreases_to!(*self => self->List_0));
                        assert(decreases_to!(*v => v@));
                        assert(decreases_to!(v@ => v@[i as int]));
                    }
                    let part = v[i].render();
                    r.push_str(part.as_str());
                    proof {
                        let after = list_view(v@.take(i + 1));
                        assert(r@ =~= "["@ + list_text(after));
                    }
                    i += 1;
                }
                proof {
                    assert(v@.take(i as int) =~= v@);
                }
                r.push_str("]");
                r
            },
            Json::Object(v) => {
                let mut r = String::new();
                r.push_str("{");
                let mut i: usize = 0;
                proof {
                    assert(members_view(v@.take(0)) =~= Seq::empty());
                }
                while i < v.len()
                    invariant
                        0 <= i <= v@.len(),
                        *self == Json::Object(*v),
                        r@ == "{"@ + members_text(members_view(v@.take(i as int))),
                    decreases v@.len() - i,
                {
                    proof {
                        lemma_members_take(v@, i as int);
                        let after = members_view(v@.take(i + 1));
                        assert(after.drop_last() =~= members_view(v@.take(i as int)));
                    }
                    if i > 0 {
                        r.push_str(",");
                    }
                    let key = quote(v[i].0.as_str());
                    r.push_str(key.as_str());
                    r.push_str(":");
                    proof {
                        assert(decreases_to!(*self => self->Object_0));
                        assert(decreases_to!(*v => v@));
                        assert(decreases_to!(v@ => v@[i as int]));
                        assert(decreases_to!(v@[i as int] => v@[i as int].1));
                    }
                    let part = v[i].1.render();
                    r.push_str(part.as_str());
                    proof {
                        let after = members_view(v@.take(i + 1));
                        assert(r@ =~= "{"@ + members_text(after));
                    }
                    i += 1;
                }
                proof {
                    assert(v@.take(i as int) =~= v@);
                }
                r.push_str("}");
                r
            },
        }
    }
}

// ---------------------------------------------------------------------------
// Making values
// ---------------------------------------------------------------------------

/// A text as a value.
pub fn text_value(t: &str) -> (r: Json)
    ensures
        r@ == JsonView::Text(t@),
{
    Json::Text(t.to_owned())
}

/// A natural number as a value.
pub fn number_value(n: u64) -> (r: Json)
    ensures
        r@ == JsonView::Number(text::dec(n as nat)),
{
    Json::Number(text::decimal(n as u128))
}

/// A list of one value.
pub fn list_of(v: Json) -> (r: Json)
    ensures
        r@ == JsonView::List(seq![v@]),
{
    let mut l: Vec<Json> = Vec::new();
    l.push(v);
    proof {
        lemma_list_view(l@);
        assert(list_view(l@) =~= seq![v@]);
    }
    Json::List(l)
}

/// An object of one member.
pub fn object1(k0: &str, v0: Json) -> (r: Json)
    ensures
        r@ == JsonView::Object(seq![(k0@, v0@)]),
{
    let mut m: Vec<(String, Json)> = Vec::new();
    m.push((k0.to_owned(), v0));
    proof {
        lemma_members_view(m@);
        assert(members_view(m@) =~= seq![(k0@, v0@)]);
    }
    Json::Object(m)
}

/// An object of two members.
pub fn object2(k0: &str, v0: Json, k1: &str, v1: Json) -> (r: Json)
    ensures
        r@ == JsonView::Object(seq![(k0@, v0@), (k1@, v1@)]),
{
    let mut m: Vec<(String, Json)> = Vec::new();
    m.push((k0.to_owned(), v0));
    m.push((k1.to_owned(), v1));
    proof {
        lemma_members_view(m@);
        assert(members_view(m@) =~= seq![(k0@, v0@), (k1@, v1@)]);
    }
    Json::Object(m)
}

/// An object of three members.
pub fn object3(k0: &str, v0: Json, k1: &str, v1: Json, k2: &str, v2: Json) -> (r: Json)
    ensures
        r@ == JsonView::Object(seq![(k0@, v0@), (k1@, v1@), (k2@, v2@)]),
{
    let mut m: Vec<(String, Json)> = Vec::new();
    m.push((k0.to_owned(), v0));
    m.push((k1.to_owned(), v1));
    m.push((k2.to_owned(), v2));
    proof {
        lemma_members_view(m@);
        assert(members_view(m@) =~= seq![(k0@, v0@), (k1@, v1@), (k2@, v2@)]);
    }
    Json::Object(m)
}

/// An object of four members.
pub fn object4(k0: &str, v0: Json, k1: &str, v1: Json, k2: &str, v2: Json, k3: &str, v3: Json) -> (r: Json)
    ensures
        r@ == JsonView::Object(seq![(k0@, v0@), (k1@, v1@), (k2@, v2@), (k3@, v3@)]),
{
    let mut m: Vec<(String, Json)> = Vec::new();
    m.push((k0.to_owned(), v0));
    m.push((k1.to_owned(), v1));
    m.push((k2.to_owned(), v2));
    m.push((k3.to_owned(), v3));
    proof {
        lemma_members_view(m@);
        assert(members_view(m@) =~= seq![(k0@, v0@), (k1@, v1@), (k2@, v2@), (k3@, v3@)]);
    }
    Json::Object(m)
}

/// An object with a further member.
pub fn extended(o: Json, key: &str, v: Json) -> (r: Json)
    requires
        o is Object,
    ensures
        r@ == JsonView::Object(o@->Object_0.push((key@, v@))),
{
    match o {
        Json::Object(members) => {
            let mut m = members;
            let ghost before = m@;
            let k = key.to_owned();
            m.push((k, v));
            proof {
                lemma_members_push(before, k, v);
            }
            Json::Object(m)
        },
        other => other,
    }
}

/// Members that are selected by their names leave those of a name that is
/// selected as they were.
pub proof fn lemma_select_member(
    m: Seq<(Seq<char>, JsonView)>,
    f: spec_fn((Seq<char>, JsonView)) -> bool,
    key: Seq<char>,
)
    requires
        forall|p: (Seq<char>, JsonView)| p.0 == key ==> #[trigger] f(p),
    ensures
        member(seqs::select(m, f), key) == member(m, key),
    decreases m.len(),
{
    if m.len() > 0 {
        let t = m.drop_last();
        let x = m.last();
        lemma_select_member(t, f, key);
        assert(m =~= t + seq![x]);
        seqs::lemma_select_concat(t, seq![x], f);
        reveal_with_fuel(seqs::select, 3);
        let r = seqs::select(m, f);
        let s = seqs::select(t, f);
        if f(x) {
            assert(r =~= s.push(x));
            assert(r.drop_last() =~= s);
        } else {
            assert(r =~= s);
        }
    }
}

/// Leaving out the members of a name leaves those of another as they were.
pub proof fn lemma_without_other(m: Seq<(Seq<char>, JsonView)>, key: Seq<char>, other: Seq<char>)
    requires
        key != other,
    ensures
        member(without(m, key), other) == member(m, other),
{
    lemma_select_member(m, named_otherwise(key), other);
}

/// The last member of a name is the one that is found.
pub proof fn lemma_member_at(m: Seq<(Seq<char>, JsonView)>, i: int)
    requires
        0 <= i < m.len(),
        forall|j: int| i < j < m.len() ==> (#[trigger] m[j]).0 != m[i].0,
    ensures
        member(m, m[i].0) == Some(m[i].1),
    decreases m.len(),
{
    if i < m.len() - 1 {
        let p = m.drop_last();
        assert(m[m.len() - 1].0 != m[i].0);
        assert forall|j: int| i < j < p.len() implies (#[trigger] p[j]).0 != p[i].0 by {
            assert(p[j] == m[j]);
        }
        lemma_member_at(p, i);
    }
}

/// The text of an object holds each of its members, its name and then its
/// value, and the text of a list each of its values.
pub proof fn law_text_holds_every_member(m: Seq<(Seq<char>, JsonView)>, i: int, l: Seq<JsonView>, k: int)
    requires
        0 <= i < m.len(),
        0 <= k < l.len(),
    ensures
        text::contains(
            json_text(JsonView::Object(m)),
            quoted(m[i].0) + ":"@ + json_text(m[i].1),
        ),
        text::contains(json_text(JsonView::List(l)), json_text(l[k])),
        text::starts_with(json_text(JsonView::Object(m)), "{"@),
        text::ends_with(json_text(JsonView::Object(m)), "}"@),
{
    let o = json_text(JsonView::Object(m));
    let ms = members_text(m);
    let p = quoted(m[i].0) + ":"@ + json_text(m[i].1);
    lemma_member_is_written(m, i);
    assert(text::contains(o, p)) by {
        text::lemma_contains_part("{"@, ms, "}"@);
        text::lemma_contains_within(o, ms, p);
    }
    assert(o.subrange(0, "{"@.len() as int) =~= "{"@);
    assert(o.subrange(o.len() - "}"@.len(), o.len() as int) =~= "}"@);
    let t = json_text(JsonView::List(l));
    let ls = list_text(l);
    lemma_value_is_written(l, k);
    assert(text::contains(t, json_text(l[k]))) by {
        text::lemma_contains_part("["@, ls, "]"@);
        text::lemma_contains_within(t, ls, json_text(l[k]));
    }
}

proof fn lemma_member_is_written(m: Seq<(Seq<char>, JsonView)>, i: int)
    requires
        0 <= i < m.len(),
    ensures
        text::contains(members_text(m), quoted(m[i].0) + ":"@ + json_text(m[i].1)),
    decreases m.len(),
{
    let p = quoted(m[i].0) + ":"@ + json_text(m[i].1);
    let t = members_text(m);
    let none = Seq::<char>::empty();
    if m.len() == 1 {
        assert(t =~= none + p + none);
        text::lemma_contains_part(none, p, none);
    } else {
        let front = members_text(m.drop_last());
        if i == m.len() - 1 {
            assert(t =~= front + ","@ + p + none);
            text::lemma_contains_part(front + ","@, p, none);
        } else {
            assert(m.drop_last()[i] == m[i]);
            lemma_member_is_written(m.drop_last(), i);
            let tail = t.skip(front.len() as int);
            assert(t =~= none + front + tail);
            text::lemma_contains_part(none, front, tail);
            text::lemma_contains_within(t, front, p);
        }
    }
}

proof fn lemma_value_is_written(l: Seq<JsonView>, k: int)
    requires
        0 <= k < l.len(),
    ensures
        text::contains(list_text(l), json_text(l[k])),
    decreases l.len(),
{
    let p = json_text(l[k]);
    let t = list_text(l);
    let none = Seq::<char>::empty();
    if l.len() == 1 {
        assert(t =~= none + p + none);
        text::lemma_contains_part(none, p, none);
    } else {
        let front = list_text(l.drop_last());
        if k == l.len() - 1 {
            assert(t =~= front + ","@ + p + none);
            text::lemma_contains_part(front + ","@, p, none);
        } else {
            assert(l.drop_last()[k] == l[k]);
            lemma_value_is_written(l.drop_last(), k);
            let tail = t.skip(front.len() as int);
            assert(t =~= none + front + tail);
            text::lemma_contains_part(none, front, tail);
            text::lemma_contains_within(t, front, p);
        }
    }
}

/// A text without quotes, backslashes and control characters is written as it
/// is, between quotes; so is it as a value.
pub proof fn law_plain_text_is_only_quoted(s: Seq<char>)
    requires
        forall|i: int|
            0 <= i < s.len() ==> #[trigger] s[i] != '"' && s[i] != '\\' && s[i] as u32 >= 0x20,
    ensures
        quoted(s) == seq!['"'] + s + seq!['"'],
        json_text(JsonView::Text(s)) == seq!['"'] + s + seq!['"'],
{
    lemma_plain_is_not_escaped(s);
}

proof fn lemma_plain_is_not_escaped(s: Seq<char>)
    requires
        forall|i: int|
            0 <= i < s.len() ==> #[trigger] s[i] != '"' && s[i] != '\\' && s[i] as u32 >= 0x20,
    ensures
        escaped_all(s) == s,
    decreases s.len(),
{
    if s.len() > 0 {
        let p = s.drop_last();
        assert forall|i: int| 0 <= i < p.len() implies #[trigger] p[i] != '"' && p[i] != '\\'
            && p[i] as u32 >= 0x20 by {
            assert(p[i] == s[i]);
        }
        lemma_plain_is_not_escaped(p);
        let c = s[s.len() - 1];
        assert(c != '"' && c != '\\' && c as u32 >= 0x20);
        assert(escaped(c) == seq![c]);
        assert(p + seq![c] =~= s);
    }
}

} // verus!
