use quiz_store::bank::{decode_bank, encode_bank};
use quiz_store::codec::{decode_answer, decode_question, encode_answer, encode_question};
use quiz_store::history::{decode_history, encode_history};
use quiz_store::json::Json;
use quiz_store::model::{AnswerRecord, AnswerValue, ExamResult, Question, QuestionBank};
use quiz_store::path::{has_json_ext, join, parent_dir};
use quiz_store::store::{
    load_history, load_questions, resolve_path, sample_questions, save_steps, FileContent,
    SaveStep, StoreError, HISTORY_FILE, QUESTION_BANK_FILE,
};

fn s(t: &str) -> String {
    t.to_string()
}

fn question(id: u32, text: &str, answer: AnswerValue) -> Question {
    Question { id, question: s(text), options: None, answer, images: None }
}

fn obj(members: Vec<(&str, Json)>) -> Json {
    Json::Object(members.into_iter().map(|(k, v)| (s(k), v)).collect())
}

fn two_subject_bank() -> QuestionBank {
    let q1 = Question {
        id: 1,
        question: s("Pick one"),
        options: Some(vec![(s("A"), s("Yes")), (s("B"), s("No"))]),
        answer: AnswerValue::Text(s("A")),
        images: None,
    };
    let q2 = Question {
        id: 2,
        question: s("Pick two"),
        options: Some(vec![(s("A"), s("x")), (s("C"), s("y"))]),
        answer: AnswerValue::Choices(vec![s("A"), s("C")]),
        images: Some(vec![s("img/1.png")]),
    };
    let q3 = question(7, "Number?", AnswerValue::Scalar(Json::UInt(42)));
    QuestionBank {
        subjects: vec![
            (s("Biology"), vec![(s("Book"), vec![q1]), (s("Exam 2020"), vec![q2])]),
            (s("Math"), vec![(s("Quiz"), vec![q3])]),
        ],
    }
}

#[test]
fn missing_bank_file_loads_empty_bank() {
    let b = load_questions(FileContent::Missing).unwrap();
    assert!(b.subjects.is_empty());
}

#[test]
fn missing_history_file_loads_empty_history() {
    let h = load_history(FileContent::Missing).unwrap();
    assert!(h.is_empty());
}

#[test]
fn given_json_file_path_is_kept() {
    let r = resolve_path(Some(s("/x/bank.json")), false, Err(s("none")), QUESTION_BANK_FILE);
    assert_eq!(r, Ok(s("/x/bank.json")));
}

#[test]
fn given_existing_directory_gets_file_name() {
    let r = resolve_path(Some(s("/x")), true, Err(s("none")), QUESTION_BANK_FILE);
    assert_eq!(r, Ok(s("/x/question_bank.json")));
}

#[test]
fn existing_directory_named_like_json_file_gets_file_name() {
    let r = resolve_path(Some(s("/x/data.json")), true, Err(s("none")), HISTORY_FILE);
    assert_eq!(r, Ok(s("/x/data.json/history.json")));
}

#[test]
fn missing_location_without_extension_is_directory() {
    let r = resolve_path(Some(s("/home/u/com.example.quiz")), false, Err(s("none")), HISTORY_FILE);
    assert_eq!(r, Ok(s("/home/u/com.example.quiz/history.json")));
}

#[test]
fn trailing_separator_is_not_doubled() {
    let r = resolve_path(Some(s("/x/")), false, Err(s("none")), QUESTION_BANK_FILE);
    assert_eq!(r, Ok(s("/x/question_bank.json")));
}

#[test]
fn json_name_with_trailing_separator_names_file() {
    let r = resolve_path(Some(s("/x/bank.json/")), false, Err(s("none")), QUESTION_BANK_FILE);
    assert_eq!(r, Ok(s("/x/bank.json/")));
}

#[test]
fn bare_dot_json_name_is_directory() {
    let r = resolve_path(Some(s("/x/.json")), false, Err(s("none")), QUESTION_BANK_FILE);
    assert_eq!(r, Ok(s("/x/.json/question_bank.json")));
}

#[test]
fn no_location_uses_default_directory() {
    let r = resolve_path(None, false, Ok(s("/data/app")), HISTORY_FILE);
    assert_eq!(r, Ok(s("/data/app/history.json")));
}

#[test]
fn no_default_directory_is_path_resolution_error() {
    let r = resolve_path(None, false, Err(s("no home")), HISTORY_FILE);
    assert_eq!(r, Err(StoreError::PathResolution(s("no home"))));
}

#[test]
fn json_extension_cases() {
    assert!(has_json_ext("a.json"));
    assert!(has_json_ext("dir/a.b.json"));
    assert!(has_json_ext("a.json//"));
    assert!(!has_json_ext(".json"));
    assert!(!has_json_ext("dir/.json"));
    assert!(!has_json_ext("a.jsonx"));
    assert!(!has_json_ext("a.JSON"));
    assert!(!has_json_ext(""));
}

#[test]
fn join_cases() {
    assert_eq!(join("", "f.json"), "f.json");
    assert_eq!(join("/", "f.json"), "/f.json");
    assert_eq!(join("a", "f.json"), "a/f.json");
}

#[test]
fn bank_round_trip_keeps_everything() {
    let b = two_subject_bank();
    let back = load_questions(FileContent::Json(encode_bank(&b))).unwrap();
    assert_eq!(back, b);
}

#[test]
fn sample_bank_round_trip() {
    let b = sample_questions();
    assert_eq!(decode_bank(&encode_bank(&b)), Some(sample_questions()));
}

#[test]
fn sample_bank_content() {
    let b = sample_questions();
    assert_eq!(b.subjects.len(), 1);
    assert_eq!(b.subjects[0].0, "General");
    assert_eq!(b.subjects[0].1[0].0, "Sample");
    let q = &b.subjects[0].1[0].1[0];
    assert_eq!(q.id, 1);
    assert_eq!(q.question, "Example?");
    assert_eq!(q.answer, AnswerValue::Text(s("A")));
    assert_eq!(q.options, Some(vec![(s("A"), s("Yes")), (s("B"), s("No"))]));
    assert_eq!(q.images, None);
}

#[test]
fn answer_shapes_survive_saving() {
    let single = question(1, "one", AnswerValue::Text(s("A")));
    let multi = question(2, "two", AnswerValue::Choices(vec![s("A"), s("C")]));
    let b = QuestionBank { subjects: vec![(s("S"), vec![(s("T"), vec![single, multi])])] };
    let back = decode_bank(&encode_bank(&b)).unwrap();
    let qs = &back.subjects[0].1[0].1;
    assert_eq!(qs[0].answer, AnswerValue::Text(s("A")));
    assert_eq!(qs[1].answer, AnswerValue::Choices(vec![s("A"), s("C")]));
}

#[test]
fn one_element_list_answer_stays_a_list() {
    let a = AnswerValue::Choices(vec![s("A")]);
    assert_eq!(encode_answer(&a), Json::Array(vec![Json::Str(s("A"))]));
    assert_eq!(decode_answer(&encode_answer(&a)), Some(a));
}

#[test]
fn answer_decoding_by_shape() {
    assert_eq!(decode_answer(&Json::Str(s("B"))), Some(AnswerValue::Text(s("B"))));
    assert_eq!(decode_answer(&Json::Array(vec![])), Some(AnswerValue::Choices(vec![])));
    assert_eq!(decode_answer(&Json::Bool(true)), Some(AnswerValue::Scalar(Json::Bool(true))));
    assert_eq!(decode_answer(&Json::Null), Some(AnswerValue::Scalar(Json::Null)));
    assert_eq!(
        decode_answer(&Json::Float(s("1.5"))),
        Some(AnswerValue::Scalar(Json::Float(s("1.5"))))
    );
    assert_eq!(decode_answer(&Json::Array(vec![Json::Str(s("A")), Json::UInt(1)])), None);
    assert_eq!(decode_answer(&obj(vec![])), None);
}

#[test]
fn question_encoding_is_exact() {
    let q = Question {
        id: 3,
        question: s("Q"),
        options: Some(vec![(s("A"), s("Yes"))]),
        answer: AnswerValue::Text(s("A")),
        images: None,
    };
    let expected = obj(vec![
        ("id", Json::UInt(3)),
        ("question", Json::Str(s("Q"))),
        ("options", obj(vec![("A", Json::Str(s("Yes")))])),
        ("answer", Json::Str(s("A"))),
        ("images", Json::Null),
    ]);
    assert_eq!(encode_question(&q), expected);
}

#[test]
fn question_optional_members_may_be_absent() {
    let j = obj(vec![
        ("answer", Json::Str(s("A"))),
        ("question", Json::Str(s("Q"))),
        ("id", Json::Int(5)),
        ("extra", Json::Bool(false)),
    ]);
    assert_eq!(decode_question(&j), Some(question(5, "Q", AnswerValue::Text(s("A")))));
}

#[test]
fn question_without_answer_is_refused() {
    let j = obj(vec![("id", Json::UInt(1)), ("question", Json::Str(s("Q")))]);
    assert_eq!(decode_question(&j), None);
}

#[test]
fn question_id_out_of_range_is_refused() {
    let j = obj(vec![
        ("id", Json::UInt(4_294_967_296)),
        ("question", Json::Str(s("Q"))),
        ("answer", Json::Null),
    ]);
    assert_eq!(decode_question(&j), None);
    let k = obj(vec![("id", Json::Int(-1)), ("question", Json::Str(s("Q"))), ("answer", Json::Null)]);
    assert_eq!(decode_question(&k), None);
}

#[test]
fn malformed_bank_text_is_parse_error() {
    let r = load_questions(FileContent::Malformed(s("expected value at line 1")));
    assert_eq!(r, Err(StoreError::Parse(s("expected value at line 1"))));
}

#[test]
fn bank_of_wrong_shape_is_parse_error() {
    let r = load_questions(FileContent::Json(obj(vec![("subjects", Json::Array(vec![]))])));
    assert!(matches!(r, Err(StoreError::Parse(_))));
    let r = load_questions(FileContent::Json(Json::Array(vec![])));
    assert!(matches!(r, Err(StoreError::Parse(_))));
    let r = load_questions(FileContent::Json(obj(vec![])));
    assert!(matches!(r, Err(StoreError::Parse(_))));
}

#[test]
fn older_flat_bank_shape_is_parse_error() {
    let flat = obj(vec![("subjects", obj(vec![("Math", Json::Array(vec![]))]))]);
    assert!(matches!(load_questions(FileContent::Json(flat)), Err(StoreError::Parse(_))));
}

#[test]
fn unordered_subject_names_are_parse_error() {
    let j = obj(vec![("subjects", obj(vec![("b", obj(vec![])), ("a", obj(vec![]))]))]);
    assert!(matches!(load_questions(FileContent::Json(j)), Err(StoreError::Parse(_))));
}

#[test]
fn empty_subjects_object_loads_empty_bank() {
    let j = obj(vec![("subjects", obj(vec![]))]);
    assert_eq!(load_questions(FileContent::Json(j)), Ok(QuestionBank { subjects: vec![] }));
}

fn history() -> Vec<ExamResult> {
    vec![
        ExamResult {
            records: vec![
                AnswerRecord {
                    question: question(1, "one", AnswerValue::Text(s("A"))),
                    answer: AnswerValue::Text(s("B")),
                    correct: false,
                },
                AnswerRecord {
                    question: question(2, "two", AnswerValue::Choices(vec![s("A"), s("C")])),
                    answer: AnswerValue::Choices(vec![s("A"), s("C")]),
                    correct: true,
                },
            ],
            elapsed: 95,
            timestamp: s("2024-05-01 10:00"),
        },
        ExamResult { records: vec![], elapsed: u64::MAX, timestamp: s("") },
    ]
}

#[test]
fn history_round_trip_keeps_everything() {
    let h = history();
    let back = load_history(FileContent::Json(encode_history(&h))).unwrap();
    assert_eq!(back, h);
}

#[test]
fn empty_history_round_trip() {
    let h: Vec<ExamResult> = vec![];
    assert_eq!(encode_history(&h), Json::Array(vec![]));
    assert_eq!(decode_history(&Json::Array(vec![])), Some(vec![]));
}

#[test]
fn negative_elapsed_is_parse_error() {
    let j = Json::Array(vec![obj(vec![
        ("records", Json::Array(vec![])),
        ("elapsed", Json::Int(-3)),
        ("timestamp", Json::Str(s("t"))),
    ])]);
    assert!(matches!(load_history(FileContent::Json(j)), Err(StoreError::Parse(_))));
}

#[test]
fn malformed_history_text_is_parse_error() {
    let r = load_history(FileContent::Malformed(s("trailing comma")));
    assert_eq!(r, Err(StoreError::Parse(s("trailing comma"))));
}

#[test]
fn error_messages_are_carried() {
    assert_eq!(StoreError::Io(s("disk full")).message(), "disk full");
    assert_eq!(StoreError::Parse(s("bad")).message(), "bad");
    assert_eq!(StoreError::PathResolution(s("no dir")).message(), "no dir");
}

#[test]
fn parent_dir_cases() {
    assert_eq!(parent_dir("/x/bank.json"), Some(s("/x")));
    assert_eq!(parent_dir("/x/y/"), Some(s("/x")));
    assert_eq!(parent_dir("a//b"), Some(s("a")));
    assert_eq!(parent_dir("/a"), Some(s("/")));
    assert_eq!(parent_dir("file.json"), Some(s("")));
    assert_eq!(parent_dir("/"), None);
    assert_eq!(parent_dir(""), None);
}

#[test]
fn save_clears_file_in_place_of_parent() {
    let steps = save_steps("/data/app/question_bank.json", true);
    assert_eq!(
        steps,
        vec![
            SaveStep::RemoveFile(s("/data/app")),
            SaveStep::CreateDirAll(s("/data/app")),
            SaveStep::WriteFile(s("/data/app/question_bank.json")),
        ]
    );
}

#[test]
fn save_with_free_parent_creates_and_writes() {
    let steps = save_steps("/data/app/history.json", false);
    assert_eq!(
        steps,
        vec![
            SaveStep::CreateDirAll(s("/data/app")),
            SaveStep::WriteFile(s("/data/app/history.json")),
        ]
    );
}

#[test]
fn repeated_option_label_is_refused() {
    let j = obj(vec![
        ("id", Json::UInt(1)),
        ("question", Json::Str(s("Q"))),
        ("options", obj(vec![("A", Json::Str(s("x"))), ("A", Json::Str(s("y")))])),
        ("answer", Json::Str(s("A"))),
    ]);
    assert_eq!(decode_question(&j), None);
}

#[test]
fn non_text_option_is_refused() {
    let j = obj(vec![
        ("id", Json::UInt(1)),
        ("question", Json::Str(s("Q"))),
        ("options", obj(vec![("A", Json::UInt(1))])),
        ("answer", Json::Str(s("A"))),
    ]);
    assert_eq!(decode_question(&j), None);
}
