use vstd::prelude::*;
use crate::codec::{
    dec_all, dec_members, dec_question, decode_question, enc_question, encode_question,
    lemma_dec_all_map, lemma_dec_all_prefix_none, lemma_dec_all_step, lemma_dec_members_map,
    lemma_dec_members_prefix_none, lemma_dec_members_step, lemma_dec_all_items,
    lemma_dec_members_items, lemma_dec_question_wf, lemma_entries_push, lemma_entries_view,
    lemma_items_push, lemma_items_view, lemma_question_round_trip, lookup, member,
};
use crate::json::{Json, JsonV, entries_view, items_view};
use crate::model::{
    BankV, Question, QuestionBank, QuestionV, SourcesV, bank_wf, keys_increasing, question_wf,
    questions_view, sources_view, sources_wf, text_lt,
};
use crate::text::text_less;

verus! {

broadcast use vstd::std_specs::vec::group_vec_axioms, vstd::seq::group_seq_axioms;

pub open spec fn enc_questions(qs: Seq<QuestionV>) -> Seq<JsonV> {
    qs.map_values(|q: QuestionV| enc_question(q))
}

pub open spec fn dec_question_list(j: JsonV) -> Option<Seq<QuestionV>> {
    match j {
        JsonV::Array(items) => dec_all(items, |x: JsonV| dec_question(x)),
        _ => None,
    }
}

pub open spec fn enc_question_list(qs: Seq<QuestionV>) -> JsonV {
    JsonV::Array(enc_questions(qs))
}

pub open spec fn enc_sources(s: SourcesV) -> JsonV {
    JsonV::Object(s.map_values(|e: (Seq<char>, Seq<QuestionV>)| (e.0, enc_question_list(e.1))))
}

/// Source names, in strictly increasing order, to arrays of questions.
pub open spec fn dec_sources(j: JsonV) -> Option<SourcesV> {
    match j {
        JsonV::Object(m) => if keys_increasing(m) {
            dec_members(m, |x: JsonV| dec_question_list(x))
        } else {
            None
        },
        _ => None,
    }
}

pub open spec fn enc_subjects(b: BankV) -> JsonV {
    JsonV::Object(b.map_values(|e: (Seq<char>, SourcesV)| (e.0, enc_sources(e.1))))
}

pub open spec fn dec_subjects(j: JsonV) -> Option<BankV> {
    match j {
        JsonV::Object(m) => if keys_increasing(m) {
            dec_members(m, |x: JsonV| dec_sources(x))
        } else {
            None
        },
        _ => None,
    }
}

/// The document `{"subjects": {subject: {source: [question, ...]}}}`.
pub open spec fn enc_bank(b: BankV) -> JsonV {
    JsonV::Object(seq![("subjects"@, enc_subjects(b))])
}

/// An object whose member `subjects` maps subject names, in strictly
/// increasing order, to objects that map source names, in strictly
/// increasing order, to arrays of questions. Other members are ignored.
pub open spec fn dec_bank(j: JsonV) -> Option<BankV> {
    match j {
        JsonV::Object(m) => match lookup(m, "subjects"@) {
            Some(s) => dec_subjects(s),
            None => None,
        },
        _ => None,
    }
}

/// Whether the member names of `m` are in strictly increasing order.
pub fn names_increasing(m: &Vec<(String, Json)>) -> (r: bool)
    ensures
        r == keys_increasing(entries_view(m@)),
{
    proof {
        lemma_entries_view(m@);
    }
    let ghost e = entries_view(m@);
    let mut i: usize = 1;
    while i < m.len()
        invariant
            1 <= i,
            e == entries_view(m@),
            e.len() == m@.len(),
            forall|k: int| 0 <= k < m@.len() ==> #[trigger] e[k] == (m@[k].0@, m@[k].1@),
            forall|k: int| 0 <= k < i - 1 && k < e.len() - 1 ==> #[trigger] text_lt(e[k].0, e[k + 1].0),
        decreases m@.len() - i,
    {
        if !text_less(m[i - 1].0.as_str(), m[i].0.as_str()) {
            assert(!text_lt(e[i - 1].0, e[(i - 1) + 1].0));
            return false;
        }
        i = i + 1;
    }
    true
}

fn encode_question_list(v: &Vec<Question>) -> (r: Json)
    ensures
        r@ == enc_question_list(questions_view(v@)),
{
    let mut out: Vec<Json> = Vec::new();
    let mut i: usize = 0;
    while i < v.len()
        invariant
            i <= v@.len(),
            items_view(out@) == enc_questions(questions_view(v@)).subrange(0, i as int),
        decreases v@.len() - i,
    {
        let ghost before = out@;
        let t = encode_question(&v[i]);
        out.push(t);
        proof {
            lemma_items_push(before, t);
        }
        assert(items_view(out@) =~= enc_questions(questions_view(v@)).subrange(0, i + 1));
        i = i + 1;
    }
    assert(enc_questions(questions_view(v@)).subrange(0, v@.len() as int) =~= enc_questions(
        questions_view(v@),
    ));
    Json::Array(out)
}

fn decode_question_list(j: &Json) -> (r: Option<Vec<Question>>)
    ensures
        match r {
            Some(v) => dec_question_list(j@) == Some(questions_view(v@)),
            None => dec_question_list(j@) is None,
        },
{
    let items = match j {
        Json::Array(items) => items,
        _ => {
            return None;
        },
    };
    proof {
        lemma_items_view(items@);
    }
    let ghost s = items_view(items@);
    let ghost f = |x: JsonV| dec_question(x);
    let mut out: Vec<Question> = Vec::new();
    let mut i: usize = 0;
    assert(s.subrange(0, 0) =~= Seq::<JsonV>::empty());
    assert(questions_view(out@) =~= Seq::<QuestionV>::empty());
    while i < items.len()
        invariant
            i <= items@.len(),
            s == items_view(items@),
            s.len() == items@.len(),
            forall|k: int| 0 <= k < items@.len() ==> #[trigger] s[k] == items@[k]@,
            f == (|x: JsonV| dec_question(x)),
            *j == Json::Array(*items),
            dec_all(s.subrange(0, i as int), f) == Some(questions_view(out@)),
        decreases items@.len() - i,
    {
        proof {
            lemma_dec_all_step(s, i as int, f);
        }
        match decode_question(&items[i]) {
            Some(q) => {
                let ghost before = out@;
                out.push(q);
                assert(questions_view(out@) =~= questions_view(before).push(q@));
            },
            None => {
                proof {
                    lemma_dec_all_prefix_none(s, i + 1, f);
                }
                return None;
            },
        }
        i = i + 1;
    }
    assert(s.subrange(0, s.len() as int) =~= s);
    Some(out)
}

pub open spec fn subjects_view(v: Seq<(String, Vec<(String, Vec<Question>)>)>) -> BankV {
    v.map_values(|e: (String, Vec<(String, Vec<Question>)>)| (e.0@, sources_view(e.1@)))
}

fn encode_sources(v: &Vec<(String, Vec<Question>)>) -> (r: Json)
    ensures
        r@ == enc_sources(sources_view(v@)),
{
    let ghost target = enc_sources(sources_view(v@))->Object_0;
    let mut out: Vec<(String, Json)> = Vec::new();
    let mut i: usize = 0;
    while i < v.len()
        invariant
            i <= v@.len(),
            target == enc_sources(sources_view(v@))->Object_0,
            entries_view(out@) == target.subrange(0, i as int),
        decreases v@.len() - i,
    {
        let ghost before = out@;
        let e = (v[i].0.clone(), encode_question_list(&v[i].1));
        out.push(e);
        proof {
            lemma_entries_push(before, e);
        }
        assert(entries_view(out@) =~= target.subrange(0, i + 1));
        i = i + 1;
    }
    assert(target.subrange(0, v@.len() as int) =~= target);
    Json::Object(out)
}

fn decode_sources(j: &Json) -> (r: Option<Vec<(String, Vec<Question>)>>)
    ensures
        match r {
            Some(v) => dec_sources(j@) == Some(sources_view(v@)),
            None => dec_sources(j@) is None,
        },
{
    let m = match j {
        Json::Object(m) => m,
        _ => {
            return None;
        },
    };
    if !names_increasing(m) {
        return None;
    }
    proof {
        lemma_entries_view(m@);
    }
    let ghost s = entries_view(m@);
    let ghost f = |x: JsonV| dec_question_list(x);
    let mut out: Vec<(String, Vec<Question>)> = Vec::new();
    let mut i: usize = 0;
    assert(s.subrange(0, 0) =~= Seq::<(Seq<char>, JsonV)>::empty());
    assert(sources_view(out@) =~= Seq::<(Seq<char>, Seq<QuestionV>)>::empty());
    while i < m.len()
        invariant
            i <= m@.len(),
            *j == Json::Object(*m),
            keys_increasing(s),
            s == entries_view(m@),
            s.len() == m@.len(),
            forall|k: int| 0 <= k < m@.len() ==> #[trigger] s[k] == (m@[k].0@, m@[k].1@),
            f == (|x: JsonV| dec_question_list(x)),
            dec_members(s.subrange(0, i as int), f) == Some(sources_view(out@)),
        decreases m@.len() - i,
    {
        proof {
            lemma_dec_members_step(s, i as int, f);
        }
        match decode_question_list(&m[i].1) {
            Some(qs) => {
                let ghost before = out@;
                let name = m[i].0.clone();
                out.push((name, qs));
                assert(sources_view(out@) =~= sources_view(before).push((name@, questions_view(qs@))));
            },
            None => {
                proof {
                    lemma_dec_members_prefix_none(s, i + 1, f);
                }
                return None;
            },
        }
        i = i + 1;
    }
    assert(s.subrange(0, s.len() as int) =~= s);
    Some(out)
}

fn encode_subjects(v: &Vec<(String, Vec<(String, Vec<Question>)>)>) -> (r: Json)
    ensures
        r@ == enc_subjects(subjects_view(v@)),
{
    let ghost target = enc_subjects(subjects_view(v@))->Object_0;
    let mut out: Vec<(String, Json)> = Vec::new();
    let mut i: usize = 0;
    while i < v.len()
        invariant
            i <= v@.len(),
            target == enc_subjects(subjects_view(v@))->Object_0,
            entries_view(out@) == target.subrange(0, i as int),
        decreases v@.len() - i,
    {
        let ghost before = out@;
        let e = (v[i].0.clone(), encode_sources(&v[i].1));
        out.push(e);
        proof {
            lemma_entries_push(before, e);
        }
        assert(entries_view(out@) =~= target.subrange(0, i + 1));
        i = i + 1;
    }
    assert(target.subrange(0, v@.len() as int) =~= target);
    Json::Object(out)
}

fn decode_subjects(j: &Json) -> (r: Option<Vec<(String, Vec<(String, Vec<Question>)>)>>)
    ensures
        match r {
            Some(v) => dec_subjects(j@) == Some(subjects_view(v@)),
            None => dec_subjects(j@) is None,
        },
{
    let m = match j {
        Json::Object(m) => m,
        _ => {
            return None;
        },
    };
    if !names_increasing(m) {
        return None;
    }
    proof {
        lemma_entries_view(m@);
    }
    let ghost s = entries_view(m@);
    let ghost f = |x: JsonV| dec_sources(x);
    let mut out: Vec<(String, Vec<(String, Vec<Question>)>)> = Vec::new();
    let mut i: usize = 0;
    assert(s.subrange(0, 0) =~= Seq::<(Seq<char>, JsonV)>::empty());
    assert(subjects_view(out@) =~= Seq::<(Seq<char>, SourcesV)>::empty());
    while i < m.len()
        invariant
            i <= m@.len(),
            *j == Json::Object(*m),
            keys_increasing(s),
            s == entries_view(m@),
            s.len() == m@.len(),
            forall|k: int| 0 <= k < m@.len() ==> #[trigger] s[k] == (m@[k].0@, m@[k].1@),
            f == (|x: JsonV| dec_sources(x)),
            dec_members(s.subrange(0, i as int), f) == Some(subjects_view(out@)),
        decreases m@.len() - i,
    {
        proof {
            lemma_dec_members_step(s, i as int, f);
        }
        match decode_sources(&m[i].1) {
            Some(src) => {
                let ghost before = out@;
                let name = m[i].0.clone();
                out.push((name, src));
                assert(subjects_view(out@) =~= subjects_view(before).push((name@, sources_view(src@))));
            },
            None => {
                proof {
                    lemma_dec_members_prefix_none(s, i + 1, f);
                }
                return None;
            },
        }
        i = i + 1;
    }
    assert(s.subrange(0, s.len() as int) =~= s);
    Some(out)
}

/// The JSON document of a question bank.
pub fn encode_bank(b: &QuestionBank) -> (r: Json)
    ensures
        r@ == enc_bank(b@),
{
    let e = (String::from_str("subjects"), encode_subjects(&b.subjects));
    let mut m: Vec<(String, Json)> = Vec::new();
    m.push(e);
    proof {
        lemma_entries_push(Seq::empty(), e);
        assert(entries_view(Seq::<(String, Json)>::empty()) =~= Seq::empty());
        assert(subjects_view(b.subjects@) =~= b@);
    }
    let r = Json::Object(m);
    assert(entries_view(m@) =~= enc_bank(b@)->Object_0);
    r
}

/// The question bank that a JSON document holds, if it holds one.
pub fn decode_bank(j: &Json) -> (r: Option<QuestionBank>)
    ensures
        match r {
            Some(b) => dec_bank(j@) == Some(b@) && bank_wf(b@),
            None => dec_bank(j@) is None,
        },
{
    proof {
        lemma_dec_bank_wf(j@);
    }
    match j {
        Json::Object(m) => match member(m, "subjects") {
            Some(s) => match decode_subjects(s) {
                Some(subjects) => {
                    let b = QuestionBank { subjects };
                    assert(subjects_view(b.subjects@) =~= b@);
                    Some(b)
                },
                None => None,
            },
            None => None,
        },
        _ => None,
    }
}

pub proof fn lemma_question_list_round_trip(qs: Seq<QuestionV>)
    requires
        forall|k: int| 0 <= k < qs.len() ==> question_wf(#[trigger] qs[k]),
    ensures
        dec_question_list(enc_question_list(qs)) == Some(qs),
{
    assert forall|k: int| 0 <= k < qs.len() implies dec_question(
        enc_question(#[trigger] qs[k]),
    ) == Some(qs[k]) by {
        lemma_question_round_trip(qs[k]);
    }
    lemma_dec_all_map(qs, |q: QuestionV| enc_question(q), |x: JsonV| dec_question(x));
    assert(enc_questions(qs) =~= qs.map_values(|q: QuestionV| enc_question(q)));
}

pub proof fn lemma_sources_round_trip(s: SourcesV)
    requires
        sources_wf(s),
    ensures
        dec_sources(enc_sources(s)) == Some(s),
{
    let g = |qs: Seq<QuestionV>| enc_question_list(qs);
    let m = enc_sources(s)->Object_0;
    assert(m =~= s.map_values(|e: (Seq<char>, Seq<QuestionV>)| (e.0, g(e.1))));
    assert forall|i: int| 0 <= i < s.len() implies dec_question_list(
        g(#[trigger] s[i].1),
    ) == Some(s[i].1) by {
        lemma_question_list_round_trip(s[i].1);
    }
    lemma_dec_members_map(s, g, |x: JsonV| dec_question_list(x));
    assert(keys_increasing(m)) by {
        assert forall|i: int| 0 <= i < m.len() - 1 implies #[trigger] text_lt(
            m[i].0,
            m[i + 1].0,
        ) by {
            assert(text_lt(s[i].0, s[i + 1].0));
        }
    }
}

/// Saving a well-formed bank and loading what was saved gives the same bank:
/// the same subjects and sources in the same order, the same questions, and
/// every answer in its own shape.
pub proof fn bank_round_trip(bank: QuestionBank)
    requires
        bank_wf(bank@),
    ensures
        dec_bank(enc_bank(bank@)) == Some(bank@),
{
    let b = bank@;
    reveal_strlit("subjects");
    let top = enc_bank(b)->Object_0;
    assert(lookup(top, "subjects"@) == Some(enc_subjects(b)));
    let g = |s: SourcesV| enc_sources(s);
    let m = enc_subjects(b)->Object_0;
    assert(m =~= b.map_values(|e: (Seq<char>, SourcesV)| (e.0, g(e.1))));
    assert forall|i: int| 0 <= i < b.len() implies dec_sources(g(#[trigger] b[i].1)) == Some(
        b[i].1,
    ) by {
        lemma_sources_round_trip(b[i].1);
    }
    lemma_dec_members_map(b, g, |x: JsonV| dec_sources(x));
    assert(keys_increasing(m)) by {
        assert forall|i: int| 0 <= i < m.len() - 1 implies #[trigger] text_lt(
            m[i].0,
            m[i + 1].0,
        ) by {
            assert(text_lt(b[i].0, b[i + 1].0));
        }
    }
}

pub open spec fn all_questions_wf(qs: Seq<QuestionV>) -> bool {
    forall|k: int| 0 <= k < qs.len() ==> question_wf(#[trigger] qs[k])
}

pub proof fn lemma_dec_question_list_wf(j: JsonV)
    ensures
        dec_question_list(j) is Some ==> all_questions_wf(dec_question_list(j)->0),
{
    if let JsonV::Array(items) = j {
        let f = |x: JsonV| dec_question(x);
        let p = |q: QuestionV| question_wf(q);
        assert forall|x: JsonV| #[trigger] f(x) is Some implies p(f(x)->0) by {
            lemma_dec_question_wf(x);
        }
        lemma_dec_all_items(items, f, p);
    }
}

proof fn lemma_keys_transfer<A, B>(s: Seq<(Seq<char>, A)>, r: Seq<(Seq<char>, B)>)
    requires
        keys_increasing(s),
        r.len() == s.len(),
        forall|i: int| 0 <= i < s.len() ==> #[trigger] r[i].0 == s[i].0,
    ensures
        keys_increasing(r),
{
    assert forall|i: int| 0 <= i < r.len() - 1 implies #[trigger] text_lt(r[i].0, r[i + 1].0) by {
        assert(r[i].0 == s[i].0 && r[i + 1].0 == s[i + 1].0);
    }
}

pub proof fn lemma_dec_sources_wf(j: JsonV)
    ensures
        dec_sources(j) is Some ==> sources_wf(dec_sources(j)->0),
{
    if let JsonV::Object(m) = j {
        let f = |x: JsonV| dec_question_list(x);
        let p = |qs: Seq<QuestionV>| all_questions_wf(qs);
        assert forall|x: JsonV| #[trigger] f(x) is Some implies p(f(x)->0) by {
            lemma_dec_question_list_wf(x);
        }
        lemma_dec_members_items(m, f, p);
        if dec_sources(j) is Some {
            let r = dec_sources(j)->0;
            lemma_keys_transfer(m, r);
            assert forall|i: int, k: int|
                0 <= i < r.len() && 0 <= k < r[i].1.len() implies question_wf(
                #[trigger] r[i].1[k],
            ) by {
                assert(r[i].0 == m[i].0);
                assert(p(r[i].1));
            }
        }
    }
}

/// Every bank that a document decodes to is well formed: names in strictly
/// increasing order, every answer of one of the three shapes.
pub proof fn lemma_dec_bank_wf(j: JsonV)
    ensures
        dec_bank(j) is Some ==> bank_wf(dec_bank(j)->0),
{
    if let JsonV::Object(top) = j {
        if let Some(JsonV::Object(m)) = lookup(top, "subjects"@) {
            let f = |x: JsonV| dec_sources(x);
            let p = |s: SourcesV| sources_wf(s);
            assert forall|x: JsonV| #[trigger] f(x) is Some implies p(f(x)->0) by {
                lemma_dec_sources_wf(x);
            }
            lemma_dec_members_items(m, f, p);
            if dec_bank(j) is Some {
                let r = dec_bank(j)->0;
                lemma_keys_transfer(m, r);
                assert forall|i: int| 0 <= i < r.len() implies sources_wf(#[trigger] r[i].1) by {
                    assert(r[i].0 == m[i].0);
                assert(p(r[i].1));
                }
            }
        }
    }
}

} // verus!
