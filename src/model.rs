use vstd::prelude::*;
use crate::json::{Json, JsonV};

verus! {

/// The answer of a question: one text, a list of texts, or another scalar
/// JSON value (null, a boolean or a number). Each shape is kept as it is.
#[derive(Debug, PartialEq)]
pub enum AnswerValue {
    Text(String),
    Choices(Vec<String>),
    Scalar(Json),
}

pub enum AnswerV {
    Text(Seq<char>),
    Choices(Seq<Seq<char>>),
    Scalar(JsonV),
}

/// One question of the bank.
#[derive(Debug, PartialEq)]
pub struct Question {
    pub id: u32,
    pub question: String,
    /// Option label to option text, e.g. "A" to "Yes".
    pub options: Option<Vec<(String, String)>>,
    pub answer: AnswerValue,
    pub images: Option<Vec<String>>,
}

pub struct QuestionV {
    pub id: u32,
    pub question: Seq<char>,
    pub options: Option<Seq<(Seq<char>, Seq<char>)>>,
    pub answer: AnswerV,
    pub images: Option<Seq<Seq<char>>>,
}

/// Subject name to (source name to questions), keys in increasing order.
#[derive(Debug, PartialEq)]
pub struct QuestionBank {
    pub subjects: Vec<(String, Vec<(String, Vec<Question>)>)>,
}

pub type SourcesV = Seq<(Seq<char>, Seq<QuestionV>)>;

pub type BankV = Seq<(Seq<char>, SourcesV)>;

/// One answer given during an exam.
#[derive(Debug, PartialEq)]
pub struct AnswerRecord {
    pub question: Question,
    pub answer: AnswerValue,
    pub correct: bool,
}

pub struct AnswerRecordV {
    pub question: QuestionV,
    pub answer: AnswerV,
    pub correct: bool,
}

/// One completed exam: its answers, the seconds it took, and when it ended.
#[derive(Debug, PartialEq)]
pub struct ExamResult {
    pub records: Vec<AnswerRecord>,
    pub elapsed: u64,
    pub timestamp: String,
}

pub struct ExamResultV {
    pub records: Seq<AnswerRecordV>,
    pub elapsed: u64,
    pub timestamp: Seq<char>,
}

pub open spec fn texts_view(v: Seq<String>) -> Seq<Seq<char>> {
    v.map_values(|s: String| s@)
}

pub open spec fn pairs_view(v: Seq<(String, String)>) -> Seq<(Seq<char>, Seq<char>)> {
    v.map_values(|e: (String, String)| (e.0@, e.1@))
}

impl View for AnswerValue {
    type V = AnswerV;

    open spec fn view(&self) -> AnswerV {
        match self {
            AnswerValue::Text(t) => AnswerV::Text(t@),
            AnswerValue::Choices(c) => AnswerV::Choices(texts_view(c@)),
            AnswerValue::Scalar(j) => AnswerV::Scalar(j@),
        }
    }
}

impl View for Question {
    type V = QuestionV;

    open spec fn view(&self) -> QuestionV {
        QuestionV {
            id: self.id,
            question: self.question@,
            options: match self.options {
                Some(o) => Some(pairs_view(o@)),
                None => None,
            },
            answer: self.answer@,
            images: match self.images {
                Some(i) => Some(texts_view(i@)),
                None => None,
            },
        }
    }
}

pub open spec fn questions_view(v: Seq<Question>) -> Seq<QuestionV> {
    v.map_values(|q: Question| q@)
}

pub open spec fn sources_view(v: Seq<(String, Vec<Question>)>) -> SourcesV {
    v.map_values(|e: (String, Vec<Question>)| (e.0@, questions_view(e.1@)))
}

impl View for QuestionBank {
    type V = BankV;

    open spec fn view(&self) -> BankV {
        self.subjects@.map_values(
            |e: (String, Vec<(String, Vec<Question>)>)| (e.0@, sources_view(e.1@)),
        )
    }
}

impl View for AnswerRecord {
    type V = AnswerRecordV;

    open spec fn view(&self) -> AnswerRecordV {
        AnswerRecordV { question: self.question@, answer: self.answer@, correct: self.correct }
    }
}

impl View for ExamResult {
    type V = ExamResultV;

    open spec fn view(&self) -> ExamResultV {
        ExamResultV {
            records: self.records@.map_values(|r: AnswerRecord| r@),
            elapsed: self.elapsed,
            timestamp: self.timestamp@,
        }
    }
}

pub open spec fn history_view(h: Seq<ExamResult>) -> Seq<ExamResultV> {
    h.map_values(|r: ExamResult| r@)
}

/// Strict lexicographic order of texts by code point, the order of `String`.
pub open spec fn text_lt(a: Seq<char>, b: Seq<char>) -> bool
    decreases a.len(),
{
    if a.len() == 0 {
        b.len() > 0
    } else if b.len() == 0 {
        false
    } else if a[0] != b[0] {
        (a[0] as u32) < (b[0] as u32)
    } else {
        text_lt(a.drop_first(), b.drop_first())
    }
}

/// Keys in strictly increasing order, hence without repetition.
pub open spec fn keys_increasing<V>(s: Seq<(Seq<char>, V)>) -> bool {
    forall|i: int| 0 <= i < s.len() - 1 ==> #[trigger] text_lt(s[i].0, s[i + 1].0)
}

pub open spec fn is_scalar(j: JsonV) -> bool {
    ||| j is Null
    ||| j is Bool
    ||| j is UInt
    ||| j is Int
    ||| j is Float
}

pub open spec fn answer_wf(a: AnswerV) -> bool {
    a is Scalar ==> is_scalar(a->Scalar_0)
}

/// No option label occurs twice.
pub open spec fn labels_distinct(p: Seq<(Seq<char>, Seq<char>)>) -> bool {
    forall|i: int, j: int| 0 <= i < j < p.len() ==> #[trigger] p[i].0 != #[trigger] p[j].0
}

pub open spec fn question_wf(q: QuestionV) -> bool {
    &&& answer_wf(q.answer)
    &&& q.options is Some ==> labels_distinct(q.options->0)
}

pub open spec fn sources_wf(s: SourcesV) -> bool {
    &&& keys_increasing(s)
    &&& forall|i: int, k: int|
        0 <= i < s.len() && 0 <= k < s[i].1.len() ==> question_wf(#[trigger] s[i].1[k])
}

/// A bank is well formed when its subject and source names are in strictly
/// increasing order and every answer has one of the three shapes.
pub open spec fn bank_wf(b: BankV) -> bool {
    &&& keys_increasing(b)
    &&& forall|i: int| 0 <= i < b.len() ==> sources_wf(#[trigger] b[i].1)
}

pub open spec fn record_wf(r: AnswerRecordV) -> bool {
    question_wf(r.question) && answer_wf(r.answer)
}

pub open spec fn result_wf(r: ExamResultV) -> bool {
    forall|i: int| 0 <= i < r.records.len() ==> record_wf(#[trigger] r.records[i])
}

pub open spec fn history_wf(h: Seq<ExamResultV>) -> bool {
    forall|i: int| 0 <= i < h.len() ==> result_wf(#[trigger] h[i])
}

} // verus!
