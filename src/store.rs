use vstd::prelude::*;
use crate::bank::{dec_bank, decode_bank};
use crate::history::{dec_history, decode_history};
use crate::json::Json;
use crate::model::{
    AnswerV, AnswerValue, ExamResult, Question, QuestionBank, QuestionV, bank_wf, history_view, history_wf, labels_distinct, pairs_view, questions_view, sources_view,
};
use crate::path::{given_location_is_directory, has_json_ext, join, join_path, parent_dir, parent_of};

verus! {

/// Name of the file that holds the question bank.
pub const QUESTION_BANK_FILE: &'static str = "question_bank.json";

/// Name of the file that holds the exam history.
pub const HISTORY_FILE: &'static str = "history.json";

/// Why a load, a save or a path resolution failed.
#[derive(Debug, PartialEq)]
pub enum StoreError {
    /// The default data directory could not be determined.
    PathResolution(String),
    /// A file is present but its content is not a document of the expected shape.
    Parse(String),
    /// Creating a directory, or reading or writing a file, failed.
    Io(String),
}

impl StoreError {
    /// The description carried by the error.
    pub fn message(&self) -> (r: String)
        ensures
            r@ == match self {
                StoreError::PathResolution(m) => m@,
                StoreError::Parse(m) => m@,
                StoreError::Io(m) => m@,
            },
    {
        match self {
            StoreError::PathResolution(m) => m.clone(),
            StoreError::Parse(m) => m.clone(),
            StoreError::Io(m) => m.clone(),
        }
    }
}

/// What was found at a document's path.
#[derive(Debug, PartialEq)]
pub enum FileContent {
    /// No file is there.
    Missing,
    /// The file holds this JSON value.
    Json(Json),
    /// The file's text is not JSON; the reader's complaint.
    Malformed(String),
}

/// The file path of `file` for an optional caller-given location.
///
/// Without a location the file lies in `default_dir`, the platform's data
/// directory, or resolution fails with its error. A given location names a
/// directory when `is_directory` (it is one on disk) or when its name lacks
/// the `.json` extension; the file then lies inside it. Otherwise the
/// location is the file itself.
pub fn resolve_path(
    dir: Option<String>,
    is_directory: bool,
    default_dir: Result<String, String>,
    file: &str,
) -> (r: Result<String, StoreError>)
    ensures
        match dir {
            Some(d) => r is Ok && r->Ok_0@ == if given_location_is_directory(d@, is_directory) {
                join_path(d@, file@)
            } else {
                d@
            },
            None => match default_dir {
                Ok(base) => r is Ok && r->Ok_0@ == join_path(base@, file@),
                Err(e) => r == Err::<String, StoreError>(StoreError::PathResolution(e)),
            },
        },
{
    match dir {
        Some(d) => {
            if is_directory || !has_json_ext(d.as_str()) {
                Ok(join(d.as_str(), file))
            } else {
                Ok(d)
            }
        },
        None => match default_dir {
            Ok(base) => Ok(join(base.as_str(), file)),
            Err(e) => Err(StoreError::PathResolution(e)),
        },
    }
}

/// An empty question bank.
pub fn empty_bank() -> (r: QuestionBank)
    ensures
        r@ == Seq::<(Seq<char>, Seq<(Seq<char>, Seq<QuestionV>)>)>::empty(),
        bank_wf(r@),
{
    let r = QuestionBank { subjects: Vec::new() };
    assert(r@ =~= Seq::empty());
    r
}

/// The question bank that a file holds: empty when there is no file, a
/// parse error when its content is not a question bank document.
pub fn load_questions(content: FileContent) -> (r: Result<QuestionBank, StoreError>)
    ensures
        match content {
            FileContent::Missing => r is Ok && r->Ok_0@ == Seq::<
                (Seq<char>, Seq<(Seq<char>, Seq<QuestionV>)>),
            >::empty(),
            FileContent::Malformed(m) => r == Err::<QuestionBank, StoreError>(
                StoreError::Parse(m),
            ),
            FileContent::Json(j) => match dec_bank(j@) {
                Some(b) => r is Ok && r->Ok_0@ == b,
                None => r is Err && r->Err_0 is Parse,
            },
        },
        r is Ok ==> bank_wf(r->Ok_0@),
{
    match content {
        FileContent::Missing => Ok(empty_bank()),
        FileContent::Malformed(m) => Err(StoreError::Parse(m)),
        FileContent::Json(j) => match decode_bank(&j) {
            Some(b) => Ok(b),
            None => Err(
                StoreError::Parse(
                    String::from_str("the file does not hold a question bank document"),
                ),
            ),
        },
    }
}

/// The exam history that a file holds: empty when there is no file, a
/// parse error when its content is not an exam history document.
pub fn load_history(content: FileContent) -> (r: Result<Vec<ExamResult>, StoreError>)
    ensures
        match content {
            FileContent::Missing => r is Ok && r->Ok_0@.len() == 0,
            FileContent::Malformed(m) => r == Err::<Vec<ExamResult>, StoreError>(
                StoreError::Parse(m),
            ),
            FileContent::Json(j) => match dec_history(j@) {
                Some(h) => r is Ok && history_view(r->Ok_0@) == h,
                None => r is Err && r->Err_0 is Parse,
            },
        },
        r is Ok ==> history_wf(history_view(r->Ok_0@)),
{
    match content {
        FileContent::Missing => {
            let h: Vec<ExamResult> = Vec::new();
            assert(history_view(h@) =~= Seq::empty());
            Ok(h)
        },
        FileContent::Malformed(m) => Err(StoreError::Parse(m)),
        FileContent::Json(j) => match decode_history(&j) {
            Some(h) => Ok(h),
            None => Err(
                StoreError::Parse(
                    String::from_str("the file does not hold an exam history document"),
                ),
            ),
        },
    }
}

/// A small built-in bank: subject "General", source "Sample", one question
/// "Example?" with options A "Yes" and B "No" and the answer "A".
pub fn sample_questions() -> (r: QuestionBank)
    ensures
        r@ == seq![
            ("General"@, seq![
                ("Sample"@, seq![
                    QuestionV {
                        id: 1,
                        question: "Example?"@,
                        options: Some(seq![("A"@, "Yes"@), ("B"@, "No"@)]),
                        answer: AnswerV::Text("A"@),
                        images: None,
                    },
                ]),
            ]),
        ],
        bank_wf(r@),
{
    let mut opts: Vec<(String, String)> = Vec::new();
    opts.push((String::from_str("A"), String::from_str("Yes")));
    opts.push((String::from_str("B"), String::from_str("No")));
    let question = Question {
        id: 1,
        question: String::from_str("Example?"),
        options: Some(opts),
        answer: AnswerValue::Text(String::from_str("A")),
        images: None,
    };
    let ghost qv = QuestionV {
        id: 1,
        question: "Example?"@,
        options: Some(seq![("A"@, "Yes"@), ("B"@, "No"@)]),
        answer: AnswerV::Text("A"@),
        images: None,
    };
    assert(pairs_view(question.options->0@) =~= seq![("A"@, "Yes"@), ("B"@, "No"@)]);
    assert(question@ == qv);
    proof {
        reveal_strlit("A");
        reveal_strlit("B");
        assert("A"@[0] != "B"@[0]);
        assert(labels_distinct(seq![("A"@, "Yes"@), ("B"@, "No"@)]));
    }
    let mut questions: Vec<Question> = Vec::new();
    questions.push(question);
    assert(questions_view(questions@) =~= seq![qv]);
    let mut sources: Vec<(String, Vec<Question>)> = Vec::new();
    sources.push((String::from_str("Sample"), questions));
    assert(sources_view(sources@) =~= seq![("Sample"@, seq![qv])]);
    let mut subjects: Vec<(String, Vec<(String, Vec<Question>)>)> = Vec::new();
    subjects.push((String::from_str("General"), sources));
    let r = QuestionBank { subjects };
    assert(r@ =~= seq![("General"@, seq![("Sample"@, seq![qv])])]);
    r
}

/// One filesystem step of a save.
#[derive(Debug, PartialEq)]
pub enum SaveStep {
    /// Delete the plain file at this path.
    RemoveFile(String),
    /// Create this directory and any missing ancestors; nothing to do where it exists.
    CreateDirAll(String),
    /// Replace the whole file at this path with the document.
    WriteFile(String),
}

/// The steps that save a document at `path`, in order. When the parent
/// directory's path is taken by a plain file (`parent_is_file`), that file is
/// removed first; the parent directory is then created, and the file written.
pub fn save_steps(path: &str, parent_is_file: bool) -> (r: Vec<SaveStep>)
    ensures
        match parent_of(path@) {
            None => r@.len() == 1 && r@[0] is WriteFile && r@[0]->WriteFile_0@ == path@,
            Some(d) => if parent_is_file {
                &&& r@.len() == 3
                &&& r@[0] is RemoveFile && r@[0]->RemoveFile_0@ == d
                &&& r@[1] is CreateDirAll && r@[1]->CreateDirAll_0@ == d
                &&& r@[2] is WriteFile && r@[2]->WriteFile_0@ == path@
            } else {
                &&& r@.len() == 2
                &&& r@[0] is CreateDirAll && r@[0]->CreateDirAll_0@ == d
                &&& r@[1] is WriteFile && r@[1]->WriteFile_0@ == path@
            },
        },
{
    let mut steps: Vec<SaveStep> = Vec::new();
    if let Some(d) = parent_dir(path) {
        if parent_is_file {
            steps.push(SaveStep::RemoveFile(d.clone()));
        }
        steps.push(SaveStep::CreateDirAll(d));
    }
    steps.push(SaveStep::WriteFile(String::from_str(path)));
    steps
}

} // verus!
