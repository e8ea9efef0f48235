use vstd::prelude::*;
use crate::codec::{
    dec_all, dec_answer, dec_question, dec_required, decode_answer, decode_question, enc_answer,
    enc_question, encode_answer, encode_question, lemma_answer_round_trip, lemma_dec_all_map,
    lemma_dec_all_prefix_none, lemma_dec_all_step, lemma_entries_push, lemma_items_push,
    lemma_items_view, lemma_question_round_trip, lookup, member, lemma_dec_all_items,
    lemma_dec_answer_wf, lemma_dec_question_wf,
};
use crate::json::{Json, JsonV, entries_view, items_view};
use crate::model::{
    AnswerRecord, AnswerRecordV, ExamResult, ExamResultV, history_view, history_wf, record_wf,
    result_wf,
};

verus! {

broadcast use vstd::std_specs::vec::group_vec_axioms, vstd::seq::group_seq_axioms;

pub open spec fn dec_u64(j: JsonV) -> Option<u64> {
    match j {
        JsonV::UInt(n) => Some(n),
        JsonV::Int(n) => if 0 <= n {
            Some(n as u64)
        } else {
            None
        },
        _ => None,
    }
}

pub open spec fn dec_bool(j: JsonV) -> Option<bool> {
    match j {
        JsonV::Bool(b) => Some(b),
        _ => None,
    }
}

pub open spec fn enc_record(r: AnswerRecordV) -> JsonV {
    JsonV::Object(
        seq![
            ("question"@, enc_question(r.question)),
            ("answer"@, enc_answer(r.answer)),
            ("correct"@, JsonV::Bool(r.correct)),
        ],
    )
}

/// An object with members `question` (a question), `answer` (an answer) and
/// `correct` (a boolean). Other members are ignored.
pub open spec fn dec_record(j: JsonV) -> Option<AnswerRecordV> {
    match j {
        JsonV::Object(m) => {
            let q = dec_required(lookup(m, "question"@), |x: JsonV| dec_question(x));
            let a = dec_required(lookup(m, "answer"@), |x: JsonV| dec_answer(x));
            let c = dec_required(lookup(m, "correct"@), |x: JsonV| dec_bool(x));
            if q is Some && a is Some && c is Some {
                Some(AnswerRecordV { question: q->0, answer: a->0, correct: c->0 })
            } else {
                None
            }
        },
        _ => None,
    }
}

pub open spec fn enc_records(s: Seq<AnswerRecordV>) -> Seq<JsonV> {
    s.map_values(|r: AnswerRecordV| enc_record(r))
}

pub open spec fn dec_records(j: JsonV) -> Option<Seq<AnswerRecordV>> {
    match j {
        JsonV::Array(items) => dec_all(items, |x: JsonV| dec_record(x)),
        _ => None,
    }
}

pub open spec fn enc_result(r: ExamResultV) -> JsonV {
    JsonV::Object(
        seq![
            ("records"@, JsonV::Array(enc_records(r.records))),
            ("elapsed"@, JsonV::UInt(r.elapsed)),
            ("timestamp"@, JsonV::Str(r.timestamp)),
        ],
    )
}

/// An object with members `records` (an array of answer records), `elapsed`
/// (a non-negative integer that fits in 64 bits) and `timestamp` (a text).
/// Other members are ignored.
pub open spec fn dec_result(j: JsonV) -> Option<ExamResultV> {
    match j {
        JsonV::Object(m) => {
            let r = dec_required(lookup(m, "records"@), |x: JsonV| dec_records(x));
            let e = dec_required(lookup(m, "elapsed"@), |x: JsonV| dec_u64(x));
            let t = dec_required(lookup(m, "timestamp"@), |x: JsonV| crate::codec::dec_text(x));
            if r is Some && e is Some && t is Some {
                Some(ExamResultV { records: r->0, elapsed: e->0, timestamp: t->0 })
            } else {
                None
            }
        },
        _ => None,
    }
}

/// The document of an exam history: an array of exam results.
pub open spec fn enc_history(h: Seq<ExamResultV>) -> JsonV {
    JsonV::Array(h.map_values(|r: ExamResultV| enc_result(r)))
}

pub open spec fn dec_history(j: JsonV) -> Option<Seq<ExamResultV>> {
    match j {
        JsonV::Array(items) => dec_all(items, |x: JsonV| dec_result(x)),
        _ => None,
    }
}

fn encode_record(r: &AnswerRecord) -> (j: Json)
    ensures
        j@ == enc_record(r@),
{
    let mut m: Vec<(String, Json)> = Vec::new();
    let e0 = (String::from_str("question"), encode_question(&r.question));
    m.push(e0);
    proof {
        lemma_entries_push(Seq::empty(), e0);
        assert(entries_view(Seq::<(String, Json)>::empty()) =~= Seq::empty());
    }
    let ghost s1 = m@;
    let e1 = (String::from_str("answer"), encode_answer(&r.answer));
    m.push(e1);
    proof {
        lemma_entries_push(s1, e1);
    }
    let ghost s2 = m@;
    let e2 = (String::from_str("correct"), Json::Bool(r.correct));
    m.push(e2);
    proof {
        lemma_entries_push(s2, e2);
    }
    let j = Json::Object(m);
    assert(entries_view(m@) =~= enc_record(r@)->Object_0);
    j
}

fn decode_record(j: &Json) -> (r: Option<AnswerRecord>)
    ensures
        match r {
            Some(a) => dec_record(j@) == Some(a@),
            None => dec_record(j@) is None,
        },
{
    match j {
        Json::Object(m) => {
            let question = match member(m, "question") {
                Some(x) => decode_question(x),
                None => None,
            };
            let answer = match member(m, "answer") {
                Some(x) => decode_answer(x),
                None => None,
            };
            let correct = match member(m, "correct") {
                Some(Json::Bool(b)) => Some(*b),
                _ => None,
            };
            match (question, answer, correct) {
                (Some(question), Some(answer), Some(correct)) => Some(
                    AnswerRecord { question, answer, correct },
                ),
                _ => None,
            }
        },
        _ => None,
    }
}

fn encode_records(v: &Vec<AnswerRecord>) -> (r: Json)
    ensures
        r@ == JsonV::Array(enc_records(v@.map_values(|a: AnswerRecord| a@))),
{
    let ghost target = enc_records(v@.map_values(|a: AnswerRecord| a@));
    let mut out: Vec<Json> = Vec::new();
    let mut i: usize = 0;
    while i < v.len()
        invariant
            i <= v@.len(),
            target == enc_records(v@.map_values(|a: AnswerRecord| a@)),
            items_view(out@) == target.subrange(0, i as int),
        decreases v@.len() - i,
    {
        let ghost before = out@;
        let t = encode_record(&v[i]);
        out.push(t);
        proof {
            lemma_items_push(before, t);
        }
        assert(items_view(out@) =~= target.subrange(0, i + 1));
        i = i + 1;
    }
    assert(target.subrange(0, v@.len() as int) =~= target);
    Json::Array(out)
}

fn decode_records(j: &Json) -> (r: Option<Vec<AnswerRecord>>)
    ensures
        match r {
            Some(v) => dec_records(j@) == Some(v@.map_values(|a: AnswerRecord| a@)),
            None => dec_records(j@) is None,
        },
{
    let items = match j {
        Json::Array(items) => items,
        _ => {
            return None;
        },
    };
    proof {
        lemma_items_view(items@);
    }
    let ghost s = items_view(items@);
    let ghost f = |x: JsonV| dec_record(x);
    let mut out: Vec<AnswerRecord> = Vec::new();
    let mut i: usize = 0;
    assert(s.subrange(0, 0) =~= Seq::<JsonV>::empty());
    assert(out@.map_values(|a: AnswerRecord| a@) =~= Seq::<AnswerRecordV>::empty());
    while i < items.len()
        invariant
            i <= items@.len(),
            *j == Json::Array(*items),
            s == items_view(items@),
            s.len() == items@.len(),
            forall|k: int| 0 <= k < items@.len() ==> #[trigger] s[k] == items@[k]@,
            f == (|x: JsonV| dec_record(x)),
            dec_all(s.subrange(0, i as int), f) == Some(out@.map_values(|a: AnswerRecord| a@)),
        decreases items@.len() - i,
    {
        proof {
            lemma_dec_all_step(s, i as int, f);
        }
        match decode_record(&items[i]) {
            Some(a) => {
                let ghost before = out@;
                out.push(a);
                assert(out@.map_values(|a: AnswerRecord| a@) =~= before.map_values(
                    |a: AnswerRecord| a@,
                ).push(a@));
            },
            None => {
                proof {
                    lemma_dec_all_prefix_none(s, i + 1, f);
                }
                return None;
            },
        }
        i = i + 1;
    }
    assert(s.subrange(0, s.len() as int) =~= s);
    Some(out)
}

fn encode_result(r: &ExamResult) -> (j: Json)
    ensures
        j@ == enc_result(r@),
{
    let mut m: Vec<(String, Json)> = Vec::new();
    let e0 = (String::from_str("records"), encode_records(&r.records));
    m.push(e0);
    proof {
        lemma_entries_push(Seq::empty(), e0);
        assert(entries_view(Seq::<(String, Json)>::empty()) =~= Seq::empty());
    }
    let ghost s1 = m@;
    let e1 = (String::from_str("elapsed"), Json::UInt(r.elapsed));
    m.push(e1);
    proof {
        lemma_entries_push(s1, e1);
    }
    let ghost s2 = m@;
    let e2 = (String::from_str("timestamp"), Json::Str(r.timestamp.clone()));
    m.push(e2);
    proof {
        lemma_entries_push(s2, e2);
    }
    let j = Json::Object(m);
    assert(entries_view(m@) =~= enc_result(r@)->Object_0);
    j
}

fn decode_result(j: &Json) -> (r: Option<ExamResult>)
    ensures
        match r {
            Some(a) => dec_result(j@) == Some(a@),
            None => dec_result(j@) is None,
        },
{
    match j {
        Json::Object(m) => {
            let records = match member(m, "records") {
                Some(x) => decode_records(x),
                None => None,
            };
            let elapsed = match member(m, "elapsed") {
                Some(Json::UInt(n)) => Some(*n),
                Some(Json::Int(n)) => if *n >= 0 {
                    Some(*n as u64)
                } else {
                    None
                },
                _ => None,
            };
            let timestamp = match member(m, "timestamp") {
                Some(Json::Str(t)) => Some(t.clone()),
                _ => None,
            };
            match (records, elapsed, timestamp) {
                (Some(records), Some(elapsed), Some(timestamp)) => Some(
                    ExamResult { records, elapsed, timestamp },
                ),
                _ => None,
            }
        },
        _ => None,
    }
}

/// The JSON document of an exam history.
pub fn encode_history(h: &Vec<ExamResult>) -> (r: Json)
    ensures
        r@ == enc_history(history_view(h@)),
{
    let ghost target = enc_history(history_view(h@))->Array_0;
    let mut out: Vec<Json> = Vec::new();
    let mut i: usize = 0;
    while i < h.len()
        invariant
            i <= h@.len(),
            target == enc_history(history_view(h@))->Array_0,
            items_view(out@) == target.subrange(0, i as int),
        decreases h@.len() - i,
    {
        let ghost before = out@;
        let t = encode_result(&h[i]);
        out.push(t);
        proof {
            lemma_items_push(before, t);
        }
        assert(items_view(out@) =~= target.subrange(0, i + 1));
        i = i + 1;
    }
    assert(target.subrange(0, h@.len() as int) =~= target);
    Json::Array(out)
}

/// The exam history that a JSON document holds, if it holds one.
pub fn decode_history(j: &Json) -> (r: Option<Vec<ExamResult>>)
    ensures
        match r {
            Some(v) => dec_history(j@) == Some(history_view(v@)) && history_wf(history_view(v@)),
            None => dec_history(j@) is None,
        },
{
    proof {
        lemma_dec_history_wf(j@);
    }
    let items = match j {
        Json::Array(items) => items,
        _ => {
            return None;
        },
    };
    proof {
        lemma_items_view(items@);
    }
    let ghost s = items_view(items@);
    let ghost f = |x: JsonV| dec_result(x);
    let mut out: Vec<ExamResult> = Vec::new();
    let mut i: usize = 0;
    assert(s.subrange(0, 0) =~= Seq::<JsonV>::empty());
    assert(history_view(out@) =~= Seq::<ExamResultV>::empty());
    while i < items.len()
        invariant
            i <= items@.len(),
            *j == Json::Array(*items),
            s == items_view(items@),
            s.len() == items@.len(),
            forall|k: int| 0 <= k < items@.len() ==> #[trigger] s[k] == items@[k]@,
            f == (|x: JsonV| dec_result(x)),
            dec_all(s.subrange(0, i as int), f) == Some(history_view(out@)),
        decreases items@.len() - i,
    {
        proof {
            lemma_dec_all_step(s, i as int, f);
        }
        match decode_result(&items[i]) {
            Some(a) => {
                let ghost before = out@;
                out.push(a);
                assert(history_view(out@) =~= history_view(before).push(a@));
            },
            None => {
                proof {
                    lemma_dec_all_prefix_none(s, i + 1, f);
                }
                return None;
            },
        }
        i = i + 1;
    }
    assert(s.subrange(0, s.len() as int) =~= s);
    Some(out)
}

pub proof fn lemma_record_round_trip(r: AnswerRecordV)
    requires
        record_wf(r),
    ensures
        dec_record(enc_record(r)) == Some(r),
{
    reveal_strlit("question");
    reveal_strlit("answer");
    reveal_strlit("correct");
    let m = enc_record(r)->Object_0;
    let m1 = m.drop_first();
    let m2 = m1.drop_first();
    assert("question"@.len() == 8 && "answer"@.len() == 6 && "correct"@.len() == 7);
    assert(m1[0] == m[1] && m2[0] == m[2]);
    assert(lookup(m, "question"@) == Some(m[0].1));
    assert(lookup(m1, "answer"@) == Some(m[1].1));
    assert(lookup(m, "answer"@) == Some(m[1].1));
    assert(lookup(m2, "correct"@) == Some(m[2].1));
    assert(lookup(m1, "correct"@) == Some(m[2].1));
    assert(lookup(m, "correct"@) == Some(m[2].1));
    lemma_question_round_trip(r.question);
    lemma_answer_round_trip(r.answer);
}

pub proof fn lemma_result_round_trip(r: ExamResultV)
    requires
        result_wf(r),
    ensures
        dec_result(enc_result(r)) == Some(r),
{
    reveal_strlit("records");
    reveal_strlit("elapsed");
    reveal_strlit("timestamp");
    let m = enc_result(r)->Object_0;
    let m1 = m.drop_first();
    let m2 = m1.drop_first();
    assert("records"@.len() == 7 && "elapsed"@.len() == 7 && "timestamp"@.len() == 9);
    assert("records"@[0] == 'r' && "elapsed"@[0] == 'e');
    assert(m1[0] == m[1] && m2[0] == m[2]);
    assert(lookup(m, "records"@) == Some(m[0].1));
    assert(lookup(m1, "elapsed"@) == Some(m[1].1));
    assert(lookup(m, "elapsed"@) == Some(m[1].1));
    assert(lookup(m2, "timestamp"@) == Some(m[2].1));
    assert(lookup(m1, "timestamp"@) == Some(m[2].1));
    assert(lookup(m, "timestamp"@) == Some(m[2].1));
    assert forall|k: int| 0 <= k < r.records.len() implies dec_record(
        enc_record(#[trigger] r.records[k]),
    ) == Some(r.records[k]) by {
        lemma_record_round_trip(r.records[k]);
    }
    lemma_dec_all_map(r.records, |a: AnswerRecordV| enc_record(a), |x: JsonV| dec_record(x));
    assert(enc_records(r.records) =~= r.records.map_values(|a: AnswerRecordV| enc_record(a)));
}

/// Saving a well-formed exam history and loading what was saved gives the
/// same history: the same results in the same order, every record and
/// answer as it was.
pub proof fn history_round_trip(history: Vec<ExamResult>)
    requires
        history_wf(history_view(history@)),
    ensures
        dec_history(enc_history(history_view(history@))) == Some(history_view(history@)),
{
    let h = history_view(history@);
    assert forall|k: int| 0 <= k < h.len() implies dec_result(enc_result(#[trigger] h[k])) == Some(
        h[k],
    ) by {
        lemma_result_round_trip(h[k]);
    }
    lemma_dec_all_map(h, |a: ExamResultV| enc_result(a), |x: JsonV| dec_result(x));
}

pub proof fn lemma_dec_record_wf(j: JsonV)
    ensures
        dec_record(j) is Some ==> record_wf(dec_record(j)->0),
{
    if let JsonV::Object(m) = j {
        if let Some(x) = lookup(m, "question"@) {
            lemma_dec_question_wf(x);
        }
        if let Some(x) = lookup(m, "answer"@) {
            lemma_dec_answer_wf(x);
        }
    }
}

pub proof fn lemma_dec_result_wf(j: JsonV)
    ensures
        dec_result(j) is Some ==> result_wf(dec_result(j)->0),
{
    if let JsonV::Object(m) = j {
        if let Some(JsonV::Array(items)) = lookup(m, "records"@) {
            let f = |x: JsonV| dec_record(x);
            let p = |r: AnswerRecordV| record_wf(r);
            assert forall|x: JsonV| #[trigger] f(x) is Some implies p(f(x)->0) by {
                lemma_dec_record_wf(x);
            }
            lemma_dec_all_items(items, f, p);
        }
    }
}

/// Every history that a document decodes to is well formed: every answer
/// of one of the three shapes.
pub proof fn lemma_dec_history_wf(j: JsonV)
    ensures
        dec_history(j) is Some ==> history_wf(dec_history(j)->0),
{
    if let JsonV::Array(items) = j {
        let f = |x: JsonV| dec_result(x);
        let p = |r: ExamResultV| result_wf(r);
        assert forall|x: JsonV| #[trigger] f(x) is Some implies p(f(x)->0) by {
            lemma_dec_result_wf(x);
        }
        lemma_dec_all_items(items, f, p);
    }
}

} // verus!
