use vstd::prelude::*;
use crate::json::{Json, JsonV, items_view, entries_view};
use crate::model::{answer_wf, labels_distinct, question_wf, AnswerV, AnswerValue, Question, QuestionV, pairs_view, texts_view};
use crate::text::same_text;

verus! {

broadcast use vstd::std_specs::vec::group_vec_axioms, vstd::seq::group_seq_axioms;

pub proof fn lemma_items_view(s: Seq<Json>)
    ensures
        items_view(s).len() == s.len(),
        forall|i: int| 0 <= i < s.len() ==> #[trigger] items_view(s)[i] == s[i]@,
    decreases s.len(),
{
    if s.len() > 0 {
        lemma_items_view(s.subrange(0, s.len() - 1));
    }
}

pub proof fn lemma_entries_view(s: Seq<(String, Json)>)
    ensures
        entries_view(s).len() == s.len(),
        forall|i: int|
            0 <= i < s.len() ==> #[trigger] entries_view(s)[i] == (s[i].0@, s[i].1@),
    decreases s.len(),
{
    if s.len() > 0 {
        lemma_entries_view(s.subrange(0, s.len() - 1));
    }
}

pub proof fn lemma_items_push(s: Seq<Json>, x: Json)
    ensures
        items_view(s.push(x)) == items_view(s).push(x@),
{
    assert(s.push(x).subrange(0, s.len() as int) =~= s);
}

pub proof fn lemma_entries_push(s: Seq<(String, Json)>, x: (String, Json))
    ensures
        entries_view(s.push(x)) == entries_view(s).push((x.0@, x.1@)),
{
    assert(s.push(x).subrange(0, s.len() as int) =~= s);
}

/// The value of the first member of `m` named `k`.
pub open spec fn lookup(m: Seq<(Seq<char>, JsonV)>, k: Seq<char>) -> Option<JsonV>
    decreases m.len(),
{
    if m.len() == 0 {
        None
    } else if m[0].0 == k {
        Some(m[0].1)
    } else {
        lookup(m.drop_first(), k)
    }
}

/// Every item decoded by `f`, or nothing when one of them does not decode.
pub open spec fn dec_all<T>(s: Seq<JsonV>, f: spec_fn(JsonV) -> Option<T>) -> Option<Seq<T>>
    decreases s.len(),
{
    if s.len() == 0 {
        Some(Seq::empty())
    } else {
        match (dec_all(s.drop_last(), f), f(s.last())) {
            (Some(a), Some(x)) => Some(a.push(x)),
            _ => None,
        }
    }
}

pub proof fn lemma_dec_all_prefix_none<T>(s: Seq<JsonV>, j: int, f: spec_fn(JsonV) -> Option<T>)
    requires
        0 <= j <= s.len(),
        dec_all(s.subrange(0, j), f) is None,
    ensures
        dec_all(s, f) is None,
    decreases s.len() - j,
{
    if j < s.len() {
        assert(s.subrange(0, j + 1).drop_last() =~= s.subrange(0, j));
        lemma_dec_all_prefix_none(s, j + 1, f);
    } else {
        assert(s.subrange(0, j) =~= s);
    }
}

pub proof fn lemma_dec_all_step<T>(s: Seq<JsonV>, i: int, f: spec_fn(JsonV) -> Option<T>)
    requires
        0 <= i < s.len(),
    ensures
        dec_all(s.subrange(0, i + 1), f) == match (dec_all(s.subrange(0, i), f), f(s[i])) {
            (Some(a), Some(x)) => Some(a.push(x)),
            _ => None,
        },
{
    assert(s.subrange(0, i + 1).drop_last() =~= s.subrange(0, i));
}

/// Decoding the encodings of a list gives the list back, when each item does.
pub proof fn lemma_dec_all_map<T>(
    s: Seq<T>,
    g: spec_fn(T) -> JsonV,
    f: spec_fn(JsonV) -> Option<T>,
)
    requires
        forall|i: int| 0 <= i < s.len() ==> f(g(#[trigger] s[i])) == Some(s[i]),
    ensures
        dec_all(s.map_values(g), f) == Some(s),
    decreases s.len(),
{
    if s.len() > 0 {
        let t = s.drop_last();
        assert(s.map_values(g).drop_last() =~= t.map_values(g));
        lemma_dec_all_map(t, g, f);
        assert(t.push(s.last()) =~= s);
    } else {
        assert(s =~= Seq::empty());
    }
}

pub open spec fn dec_text(j: JsonV) -> Option<Seq<char>> {
    match j {
        JsonV::Str(s) => Some(s),
        _ => None,
    }
}

pub open spec fn dec_texts(s: Seq<JsonV>) -> Option<Seq<Seq<char>>> {
    dec_all(s, |j: JsonV| dec_text(j))
}

pub open spec fn enc_texts(s: Seq<Seq<char>>) -> Seq<JsonV> {
    s.map_values(|t: Seq<char>| JsonV::Str(t))
}

pub open spec fn enc_answer(a: AnswerV) -> JsonV {
    match a {
        AnswerV::Text(t) => JsonV::Str(t),
        AnswerV::Choices(c) => JsonV::Array(enc_texts(c)),
        AnswerV::Scalar(j) => j,
    }
}

/// A text is the first shape, an array of texts the second, any other
/// scalar the third; an object, or an array holding anything but texts, is
/// no answer.
pub open spec fn dec_answer(j: JsonV) -> Option<AnswerV> {
    match j {
        JsonV::Str(t) => Some(AnswerV::Text(t)),
        JsonV::Array(items) => match dec_texts(items) {
            Some(c) => Some(AnswerV::Choices(c)),
            None => None,
        },
        JsonV::Object(_) => None,
        _ => Some(AnswerV::Scalar(j)),
    }
}

/// A copy of `j`.
pub fn copy_json(j: &Json) -> (r: Json)
    ensures
        r@ == j@,
    decreases j,
{
    match j {
        Json::Null => Json::Null,
        Json::Bool(b) => Json::Bool(*b),
        Json::UInt(n) => Json::UInt(*n),
        Json::Int(n) => Json::Int(*n),
        Json::Float(t) => Json::Float(t.clone()),
        Json::Str(s) => Json::Str(s.clone()),
        Json::Array(v) => {
            let mut out: Vec<Json> = Vec::new();
            let mut i: usize = 0;
            proof {
                lemma_items_view(v@);
            }
            while i < v.len()
                invariant
                    *j == Json::Array(*v),
                    i <= v@.len(),
                    items_view(v@).len() == v@.len(),
                    forall|k: int| 0 <= k < v@.len() ==> #[trigger] items_view(v@)[k] == v@[k]@,
                    items_view(out@) == items_view(v@).subrange(0, i as int),
                decreases v@.len() - i,
            {
                proof {
                    assert(decreases_to!(*j => (*j)->Array_0));
                    assert(decreases_to!(*v => v@));
                    assert(decreases_to!(v@ => v@[i as int]));
                    assert(decreases_to!(j => v@[i as int]));
                }
                let c = copy_json(&v[i]);
                let ghost before = out@;
                out.push(c);
                assert(out@.subrange(0, out@.len() - 1) =~= before);
                assert(items_view(out@) =~= items_view(v@).subrange(0, i + 1));
                i = i + 1;
            }
            assert(items_view(v@).subrange(0, v@.len() as int) =~= items_view(v@));
            Json::Array(out)
        },
        Json::Object(m) => {
            let mut out: Vec<(String, Json)> = Vec::new();
            let mut i: usize = 0;
            proof {
                lemma_entries_view(m@);
            }
            while i < m.len()
                invariant
                    *j == Json::Object(*m),
                    i <= m@.len(),
                    entries_view(m@).len() == m@.len(),
                    forall|k: int|
                        0 <= k < m@.len() ==> #[trigger] entries_view(m@)[k] == (
                            m@[k].0@,
                            m@[k].1@,
                        ),
                    entries_view(out@) == entries_view(m@).subrange(0, i as int),
                decreases m@.len() - i,
            {
                proof {
                    assert(decreases_to!(*j => (*j)->Object_0));
                    assert(decreases_to!(*m => m@));
                    assert(decreases_to!(m@ => m@[i as int]));
                    assert(decreases_to!(m@[i as int] => m@[i as int].1));
                    assert(decreases_to!(j => m@[i as int].1));
                }
                let c = copy_json(&m[i].1);
                let ghost before = out@;
                out.push((m[i].0.clone(), c));
                assert(out@.subrange(0, out@.len() - 1) =~= before);
                assert(entries_view(out@) =~= entries_view(m@).subrange(0, i + 1));
                i = i + 1;
            }
            assert(entries_view(m@).subrange(0, m@.len() as int) =~= entries_view(m@));
            Json::Object(out)
        },
    }
}

/// The value of the first member of `m` named `k`.
pub fn member<'a>(m: &'a Vec<(String, Json)>, k: &str) -> (r: Option<&'a Json>)
    ensures
        match r {
            Some(x) => lookup(entries_view(m@), k@) == Some(x@),
            None => lookup(entries_view(m@), k@) is None,
        },
{
    proof {
        lemma_entries_view(m@);
    }
    let ghost e = entries_view(m@);
    let mut i: usize = 0;
    assert(e.subrange(0, e.len() as int) =~= e);
    while i < m.len()
        invariant
            i <= m@.len(),
            e == entries_view(m@),
            e.len() == m@.len(),
            forall|k: int| 0 <= k < m@.len() ==> #[trigger] e[k] == (m@[k].0@, m@[k].1@),
            lookup(e, k@) == lookup(e.subrange(i as int, e.len() as int), k@),
        decreases m@.len() - i,
    {
        assert(e.subrange(i as int, e.len() as int)[0] == e[i as int]);
        if same_text(m[i].0.as_str(), k) {
            return Some(&m[i].1);
        }
        assert(e.subrange(i as int, e.len() as int).drop_first() =~= e.subrange(
            i + 1,
            e.len() as int,
        ));
        i = i + 1;
    }
    None
}

fn encode_texts(v: &Vec<String>) -> (r: Vec<Json>)
    ensures
        items_view(r@) == enc_texts(texts_view(v@)),
{
    let mut out: Vec<Json> = Vec::new();
    let mut i: usize = 0;
    while i < v.len()
        invariant
            i <= v@.len(),
            items_view(out@) == enc_texts(texts_view(v@)).subrange(0, i as int),
        decreases v@.len() - i,
    {
        let ghost before = out@;
        let t = Json::Str(v[i].clone());
        assert(t@ == JsonV::Str(v@[i as int]@));
        out.push(t);
        proof {
            lemma_items_push(before, t);
        }
        assert(items_view(out@) =~= enc_texts(texts_view(v@)).subrange(0, i + 1));
        i = i + 1;
    }
    assert(enc_texts(texts_view(v@)).subrange(0, v@.len() as int) =~= enc_texts(texts_view(v@)));
    out
}

fn decode_texts(items: &Vec<Json>) -> (r: Option<Vec<String>>)
    ensures
        match r {
            Some(v) => dec_texts(items_view(items@)) == Some(texts_view(v@)),
            None => dec_texts(items_view(items@)) is None,
        },
{
    proof {
        lemma_items_view(items@);
    }
    let ghost s = items_view(items@);
    let ghost f = |j: JsonV| dec_text(j);
    let mut out: Vec<String> = Vec::new();
    let mut i: usize = 0;
    assert(s.subrange(0, 0) =~= Seq::<JsonV>::empty());
    assert(texts_view(out@) =~= Seq::<Seq<char>>::empty());
    while i < items.len()
        invariant
            i <= items@.len(),
            s == items_view(items@),
            s.len() == items@.len(),
            forall|k: int| 0 <= k < items@.len() ==> #[trigger] s[k] == items@[k]@,
            f == (|j: JsonV| dec_text(j)),
            dec_all(s.subrange(0, i as int), f) == Some(texts_view(out@)),
        decreases items@.len() - i,
    {
        proof {
            lemma_dec_all_step(s, i as int, f);
        }
        match &items[i] {
            Json::Str(t) => {
                let ghost before = out@;
                out.push(t.clone());
                assert(texts_view(out@) =~= texts_view(before).push(t@));
            },
            _ => {
                proof {
                    lemma_dec_all_prefix_none(s, i + 1, f);
                }
                return None;
            },
        }
        i = i + 1;
    }
    assert(s.subrange(0, s.len() as int) =~= s);
    Some(out)
}

/// The JSON form of an answer.
pub fn encode_answer(a: &AnswerValue) -> (r: Json)
    ensures
        r@ == enc_answer(a@),
{
    match a {
        AnswerValue::Text(t) => Json::Str(t.clone()),
        AnswerValue::Choices(c) => Json::Array(encode_texts(c)),
        AnswerValue::Scalar(j) => copy_json(j),
    }
}

/// The answer that a JSON value holds, if it holds one.
pub fn decode_answer(j: &Json) -> (r: Option<AnswerValue>)
    ensures
        match r {
            Some(a) => dec_answer(j@) == Some(a@),
            None => dec_answer(j@) is None,
        },
{
    match j {
        Json::Str(t) => Some(AnswerValue::Text(t.clone())),
        Json::Array(items) => match decode_texts(items) {
            Some(c) => Some(AnswerValue::Choices(c)),
            None => None,
        },
        Json::Object(_) => None,
        _ => Some(AnswerValue::Scalar(copy_json(j))),
    }
}

/// Every member value decoded by `f`, names kept, or nothing when one of
/// them does not decode.
pub open spec fn dec_members<T>(
    m: Seq<(Seq<char>, JsonV)>,
    f: spec_fn(JsonV) -> Option<T>,
) -> Option<Seq<(Seq<char>, T)>>
    decreases m.len(),
{
    if m.len() == 0 {
        Some(Seq::empty())
    } else {
        match (dec_members(m.drop_last(), f), f(m.last().1)) {
            (Some(a), Some(x)) => Some(a.push((m.last().0, x))),
            _ => None,
        }
    }
}

pub proof fn lemma_dec_members_prefix_none<T>(
    s: Seq<(Seq<char>, JsonV)>,
    j: int,
    f: spec_fn(JsonV) -> Option<T>,
)
    requires
        0 <= j <= s.len(),
        dec_members(s.subrange(0, j), f) is None,
    ensures
        dec_members(s, f) is None,
    decreases s.len() - j,
{
    if j < s.len() {
        assert(s.subrange(0, j + 1).drop_last() =~= s.subrange(0, j));
        lemma_dec_members_prefix_none(s, j + 1, f);
    } else {
        assert(s.subrange(0, j) =~= s);
    }
}

pub proof fn lemma_dec_members_step<T>(
    s: Seq<(Seq<char>, JsonV)>,
    i: int,
    f: spec_fn(JsonV) -> Option<T>,
)
    requires
        0 <= i < s.len(),
    ensures
        dec_members(s.subrange(0, i + 1), f) == match (
            dec_members(s.subrange(0, i), f),
            f(s[i].1),
        ) {
            (Some(a), Some(x)) => Some(a.push((s[i].0, x))),
            _ => None,
        },
{
    assert(s.subrange(0, i + 1).drop_last() =~= s.subrange(0, i));
}

/// Decoding the encodings of the members gives them back, when each value does.
pub proof fn lemma_dec_members_map<T>(
    s: Seq<(Seq<char>, T)>,
    g: spec_fn(T) -> JsonV,
    f: spec_fn(JsonV) -> Option<T>,
)
    requires
        forall|i: int| 0 <= i < s.len() ==> f(g(#[trigger] s[i].1)) == Some(s[i].1),
    ensures
        dec_members(s.map_values(|e: (Seq<char>, T)| (e.0, g(e.1))), f) == Some(s),
    decreases s.len(),
{
    let h = |e: (Seq<char>, T)| (e.0, g(e.1));
    if s.len() > 0 {
        let t = s.drop_last();
        assert(s.map_values(h).drop_last() =~= t.map_values(h));
        lemma_dec_members_map(t, g, f);
        assert(t.push(s.last()) =~= s);
    } else {
        assert(s =~= Seq::empty());
    }
}

pub open spec fn dec_u32(j: JsonV) -> Option<u32> {
    match j {
        JsonV::UInt(n) => if n <= u32::MAX {
            Some(n as u32)
        } else {
            None
        },
        JsonV::Int(n) => if 0 <= n <= u32::MAX {
            Some(n as u32)
        } else {
            None
        },
        _ => None,
    }
}

pub open spec fn dec_pairs(m: Seq<(Seq<char>, JsonV)>) -> Option<Seq<(Seq<char>, Seq<char>)>> {
    dec_members(m, |j: JsonV| dec_text(j))
}

pub open spec fn enc_pairs(p: Seq<(Seq<char>, Seq<char>)>) -> Seq<(Seq<char>, JsonV)> {
    p.map_values(|e: (Seq<char>, Seq<char>)| (e.0, JsonV::Str(e.1)))
}

/// An absent or null `options` member is no options; otherwise it maps
/// distinct labels to texts.
pub open spec fn dec_options(f: Option<JsonV>) -> Option<Option<Seq<(Seq<char>, Seq<char>)>>> {
    match f {
        None => Some(None),
        Some(JsonV::Null) => Some(None),
        Some(JsonV::Object(m)) => match dec_pairs(m) {
            Some(p) => if labels_distinct(p) {
                Some(Some(p))
            } else {
                None
            },
            None => None,
        },
        _ => None,
    }
}

/// An absent or null `images` member is no images.
pub open spec fn dec_images(f: Option<JsonV>) -> Option<Option<Seq<Seq<char>>>> {
    match f {
        None => Some(None),
        Some(JsonV::Null) => Some(None),
        Some(JsonV::Array(items)) => match dec_texts(items) {
            Some(t) => Some(Some(t)),
            None => None,
        },
        _ => None,
    }
}

pub open spec fn dec_required<T>(f: Option<JsonV>, d: spec_fn(JsonV) -> Option<T>) -> Option<T> {
    match f {
        Some(x) => d(x),
        None => None,
    }
}

/// A question is an object with members `id` (an integer that fits in 32
/// bits), `question` (a text), `answer` (an answer), and optionally
/// `options` (an object of texts) and `images` (an array of texts), each of
/// these two possibly null. Other members are ignored.
pub open spec fn dec_question(j: JsonV) -> Option<QuestionV> {
    match j {
        JsonV::Object(m) => {
            let id = dec_required(lookup(m, "id"@), |x: JsonV| dec_u32(x));
            let q = dec_required(lookup(m, "question"@), |x: JsonV| dec_text(x));
            let o = dec_options(lookup(m, "options"@));
            let a = dec_required(lookup(m, "answer"@), |x: JsonV| dec_answer(x));
            let im = dec_images(lookup(m, "images"@));
            if id is Some && q is Some && o is Some && a is Some && im is Some {
                Some(
                    QuestionV {
                        id: id->0,
                        question: q->0,
                        options: o->0,
                        answer: a->0,
                        images: im->0,
                    },
                )
            } else {
                None
            }
        },
        _ => None,
    }
}

pub open spec fn enc_question(q: QuestionV) -> JsonV {
    JsonV::Object(
        seq![
            ("id"@, JsonV::UInt(q.id as u64)),
            ("question"@, JsonV::Str(q.question)),
            ("options"@, match q.options {
                Some(p) => JsonV::Object(enc_pairs(p)),
                None => JsonV::Null,
            }),
            ("answer"@, enc_answer(q.answer)),
            ("images"@, match q.images {
                Some(t) => JsonV::Array(enc_texts(t)),
                None => JsonV::Null,
            }),
        ],
    )
}

fn encode_pairs(p: &Vec<(String, String)>) -> (r: Vec<(String, Json)>)
    ensures
        entries_view(r@) == enc_pairs(pairs_view(p@)),
{
    let mut out: Vec<(String, Json)> = Vec::new();
    let mut i: usize = 0;
    while i < p.len()
        invariant
            i <= p@.len(),
            entries_view(out@) == enc_pairs(pairs_view(p@)).subrange(0, i as int),
        decreases p@.len() - i,
    {
        let ghost before = out@;
        let e = (p[i].0.clone(), Json::Str(p[i].1.clone()));
        out.push(e);
        proof {
            lemma_entries_push(before, e);
        }
        assert(entries_view(out@) =~= enc_pairs(pairs_view(p@)).subrange(0, i + 1));
        i = i + 1;
    }
    assert(enc_pairs(pairs_view(p@)).subrange(0, p@.len() as int) =~= enc_pairs(pairs_view(p@)));
    out
}

fn decode_pairs(m: &Vec<(String, Json)>) -> (r: Option<Vec<(String, String)>>)
    ensures
        match r {
            Some(v) => dec_pairs(entries_view(m@)) == Some(pairs_view(v@)),
            None => dec_pairs(entries_view(m@)) is None,
        },
{
    proof {
        lemma_entries_view(m@);
    }
    let ghost s = entries_view(m@);
    let ghost f = |j: JsonV| dec_text(j);
    let mut out: Vec<(String, String)> = Vec::new();
    let mut i: usize = 0;
    assert(s.subrange(0, 0) =~= Seq::<(Seq<char>, JsonV)>::empty());
    assert(pairs_view(out@) =~= Seq::<(Seq<char>, Seq<char>)>::empty());
    while i < m.len()
        invariant
            i <= m@.len(),
            s == entries_view(m@),
            s.len() == m@.len(),
            forall|k: int| 0 <= k < m@.len() ==> #[trigger] s[k] == (m@[k].0@, m@[k].1@),
            f == (|j: JsonV| dec_text(j)),
            dec_members(s.subrange(0, i as int), f) == Some(pairs_view(out@)),
        decreases m@.len() - i,
    {
        proof {
            lemma_dec_members_step(s, i as int, f);
        }
        match &m[i].1 {
            Json::Str(t) => {
                let ghost before = out@;
                out.push((m[i].0.clone(), t.clone()));
                assert(pairs_view(out@) =~= pairs_view(before).push((m@[i as int].0@, t@)));
            },
            _ => {
                proof {
                    lemma_dec_members_prefix_none(s, i + 1, f);
                }
                return None;
            },
        }
        i = i + 1;
    }
    assert(s.subrange(0, s.len() as int) =~= s);
    Some(out)
}

fn decode_u32(j: &Json) -> (r: Option<u32>)
    ensures
        r == dec_u32(j@),
{
    match j {
        Json::UInt(n) => if *n <= 0xffff_ffff {
            Some(*n as u32)
        } else {
            None
        },
        Json::Int(n) => if 0 <= *n && *n <= 0xffff_ffff {
            Some(*n as u32)
        } else {
            None
        },
        _ => None,
    }
}

/// Whether no option label of `p` occurs twice.
fn distinct_labels(p: &Vec<(String, String)>) -> (r: bool)
    ensures
        r == labels_distinct(pairs_view(p@)),
{
    let ghost v = pairs_view(p@);
    let mut i: usize = 0;
    while i < p.len()
        invariant
            i <= p@.len(),
            v == pairs_view(p@),
            forall|a: int, b: int| 0 <= a < b < i ==> #[trigger] v[a].0 != #[trigger] v[b].0,
        decreases p@.len() - i,
    {
        let mut j: usize = 0;
        while j < i
            invariant
                j <= i < p@.len(),
                v == pairs_view(p@),
                forall|a: int, b: int| 0 <= a < b < i ==> #[trigger] v[a].0 != #[trigger] v[b].0,
                forall|a: int| 0 <= a < j ==> #[trigger] v[a].0 != v[i as int].0,
            decreases i - j,
        {
            if same_text(p[j].0.as_str(), p[i].0.as_str()) {
                assert(v[j as int].0 == v[i as int].0);
                return false;
            }
            j = j + 1;
        }
        i = i + 1;
    }
    true
}

pub open spec fn opt_view(f: Option<&Json>) -> Option<JsonV> {
    match f {
        Some(x) => Some(x@),
        None => None,
    }
}

fn decode_options(f: Option<&Json>) -> (r: Option<Option<Vec<(String, String)>>>)
    ensures
        match r {
            Some(Some(v)) => dec_options(opt_view(f)) == Some(Some(pairs_view(v@))),
            Some(None) => dec_options(opt_view(f)) == Some(
                None::<Seq<(Seq<char>, Seq<char>)>>,
            ),
            None => dec_options(opt_view(f)) is None,
        },
{
    match f {
        None => Some(None),
        Some(Json::Null) => Some(None),
        Some(Json::Object(m)) => match decode_pairs(m) {
            Some(p) => if distinct_labels(&p) {
                Some(Some(p))
            } else {
                None
            },
            None => None,
        },
        Some(_) => None,
    }
}

fn decode_images(f: Option<&Json>) -> (r: Option<Option<Vec<String>>>)
    ensures
        match r {
            Some(Some(v)) => dec_images(opt_view(f)) == Some(Some(texts_view(v@))),
            Some(None) => dec_images(opt_view(f)) == Some(None::<Seq<Seq<char>>>),
            None => dec_images(opt_view(f)) is None,
        },
{
    match f {
        None => Some(None),
        Some(Json::Null) => Some(None),
        Some(Json::Array(items)) => match decode_texts(items) {
            Some(t) => Some(Some(t)),
            None => None,
        },
        Some(_) => None,
    }
}

/// The JSON form of a question.
pub fn encode_question(q: &Question) -> (r: Json)
    ensures
        r@ == enc_question(q@),
{
    let mut m: Vec<(String, Json)> = Vec::new();
    let e0 = (String::from_str("id"), Json::UInt(q.id as u64));
    m.push(e0);
    proof {
        lemma_entries_push(Seq::empty(), e0);
    }
    let ghost s1 = m@;
    let e1 = (String::from_str("question"), Json::Str(q.question.clone()));
    m.push(e1);
    proof {
        lemma_entries_push(s1, e1);
    }
    let ghost s2 = m@;
    let o = match &q.options {
        Some(p) => Json::Object(encode_pairs(p)),
        None => Json::Null,
    };
    let e2 = (String::from_str("options"), o);
    m.push(e2);
    proof {
        lemma_entries_push(s2, e2);
    }
    let ghost s3 = m@;
    let e3 = (String::from_str("answer"), encode_answer(&q.answer));
    m.push(e3);
    proof {
        lemma_entries_push(s3, e3);
    }
    let ghost s4 = m@;
    let im = match &q.images {
        Some(t) => Json::Array(encode_texts(t)),
        None => Json::Null,
    };
    let e4 = (String::from_str("images"), im);
    m.push(e4);
    proof {
        lemma_entries_push(s4, e4);
        assert(Seq::<(String, Json)>::empty().push(e0) =~= seq![e0]);
        assert(entries_view(Seq::<(String, Json)>::empty()) =~= Seq::empty());
    }
    let r = Json::Object(m);
    assert(entries_view(m@) =~= enc_question(q@)->Object_0);
    r
}

/// The question that a JSON value holds, if it holds one.
pub fn decode_question(j: &Json) -> (r: Option<Question>)
    ensures
        match r {
            Some(q) => dec_question(j@) == Some(q@),
            None => dec_question(j@) is None,
        },
{
    match j {
        Json::Object(m) => {
            let id = match member(m, "id") {
                Some(x) => decode_u32(x),
                None => None,
            };
            let question = match member(m, "question") {
                Some(Json::Str(t)) => Some(t.clone()),
                _ => None,
            };
            let options = decode_options(member(m, "options"));
            let answer = match member(m, "answer") {
                Some(x) => decode_answer(x),
                None => None,
            };
            let images = decode_images(member(m, "images"));
            match (id, question, options, answer, images) {
                (Some(id), Some(question), Some(options), Some(answer), Some(images)) => Some(
                    Question { id, question, options, answer, images },
                ),
                _ => None,
            }
        },
        _ => None,
    }
}

pub proof fn lemma_texts_round_trip(t: Seq<Seq<char>>)
    ensures
        dec_texts(enc_texts(t)) == Some(t),
{
    lemma_dec_all_map(t, |x: Seq<char>| JsonV::Str(x), |j: JsonV| dec_text(j));
}

pub proof fn lemma_pairs_round_trip(p: Seq<(Seq<char>, Seq<char>)>)
    ensures
        dec_pairs(enc_pairs(p)) == Some(p),
{
    let g = |x: Seq<char>| JsonV::Str(x);
    lemma_dec_members_map(p, g, |j: JsonV| dec_text(j));
    assert(enc_pairs(p) =~= p.map_values(|e: (Seq<char>, Seq<char>)| (e.0, g(e.1))));
}

/// An answer of one of the three shapes comes back from its JSON form with
/// the same shape and value: a text stays a text, a list stays a list.
pub proof fn lemma_answer_round_trip(a: AnswerV)
    requires
        answer_wf(a),
    ensures
        dec_answer(enc_answer(a)) == Some(a),
{
    if let AnswerV::Choices(c) = a {
        lemma_texts_round_trip(c);
    }
}

pub proof fn lemma_question_round_trip(q: QuestionV)
    requires
        question_wf(q),
    ensures
        dec_question(enc_question(q)) == Some(q),
{
    reveal_strlit("id");
    reveal_strlit("question");
    reveal_strlit("options");
    reveal_strlit("answer");
    reveal_strlit("images");
    let m = enc_question(q)->Object_0;
    let m1 = m.drop_first();
    let m2 = m1.drop_first();
    let m3 = m2.drop_first();
    let m4 = m3.drop_first();
    assert("id"@.len() == 2 && "question"@.len() == 8 && "options"@.len() == 7);
    assert("answer"@.len() == 6 && "images"@.len() == 6);
    assert("answer"@[0] == 'a' && "images"@[0] == 'i');
    assert(m1[0] == m[1] && m2[0] == m[2] && m3[0] == m[3] && m4[0] == m[4]);
    assert(m[0].0 != "question"@ && m[0].0 != "options"@ && m[0].0 != "answer"@ && m[0].0
        != "images"@);
    assert(m[1].0 != "options"@ && m[1].0 != "answer"@ && m[1].0 != "images"@);
    assert(m[2].0 != "answer"@ && m[2].0 != "images"@);
    assert(m[3].0 != "images"@);
    assert(lookup(m, "id"@) == Some(m[0].1));
    assert(lookup(m1, "question"@) == Some(m[1].1));
    assert(lookup(m, "question"@) == Some(m[1].1));
    assert(lookup(m2, "options"@) == Some(m[2].1));
    assert(lookup(m1, "options"@) == Some(m[2].1));
    assert(lookup(m, "options"@) == Some(m[2].1));
    assert(lookup(m3, "answer"@) == Some(m[3].1));
    assert(lookup(m2, "answer"@) == Some(m[3].1));
    assert(lookup(m1, "answer"@) == Some(m[3].1));
    assert(lookup(m, "answer"@) == Some(m[3].1));
    assert(lookup(m4, "images"@) == Some(m[4].1));
    assert(lookup(m3, "images"@) == Some(m[4].1));
    assert(lookup(m2, "images"@) == Some(m[4].1));
    assert(lookup(m1, "images"@) == Some(m[4].1));
    assert(lookup(m, "images"@) == Some(m[4].1));
    lemma_answer_round_trip(q.answer);
    if let Some(p) = q.options {
        lemma_pairs_round_trip(p);
    }
    if let Some(t) = q.images {
        lemma_texts_round_trip(t);
    }
}

/// Every item that `dec_all` hands back has the property `p` when every
/// result of `f` has it.
pub proof fn lemma_dec_all_items<T>(
    s: Seq<JsonV>,
    f: spec_fn(JsonV) -> Option<T>,
    p: spec_fn(T) -> bool,
)
    requires
        forall|j: JsonV| #[trigger] f(j) is Some ==> p(f(j)->0),
    ensures
        dec_all(s, f) is Some ==> forall|i: int|
            0 <= i < dec_all(s, f)->0.len() ==> p(#[trigger] dec_all(s, f)->0[i]),
    decreases s.len(),
{
    if s.len() > 0 {
        lemma_dec_all_items(s.drop_last(), f, p);
        assert(f(s.last()) is Some ==> p(f(s.last())->0));
    }
}

/// The members that `dec_members` hands back keep their names, and their
/// values have the property `p` when every result of `f` has it.
pub proof fn lemma_dec_members_items<T>(
    s: Seq<(Seq<char>, JsonV)>,
    f: spec_fn(JsonV) -> Option<T>,
    p: spec_fn(T) -> bool,
)
    requires
        forall|j: JsonV| #[trigger] f(j) is Some ==> p(f(j)->0),
    ensures
        dec_members(s, f) is Some ==> {
            let r = dec_members(s, f)->0;
            &&& r.len() == s.len()
            &&& forall|i: int| 0 <= i < s.len() ==> #[trigger] r[i].0 == s[i].0 && p(r[i].1)
        },
    decreases s.len(),
{
    if s.len() > 0 {
        lemma_dec_members_items(s.drop_last(), f, p);
        assert(f(s.last().1) is Some ==> p(f(s.last().1)->0));
    }
}

pub proof fn lemma_dec_answer_wf(j: JsonV)
    ensures
        dec_answer(j) is Some ==> answer_wf(dec_answer(j)->0),
{
}

pub proof fn lemma_dec_question_wf(j: JsonV)
    ensures
        dec_question(j) is Some ==> question_wf(dec_question(j)->0),
{
    if let JsonV::Object(m) = j {
        if let Some(x) = lookup(m, "answer"@) {
            lemma_dec_answer_wf(x);
        }
    }
}

} // verus!
