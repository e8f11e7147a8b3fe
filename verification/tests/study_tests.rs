use koc_core::study::{normalize_text, study_answers, AnswerBank};
use chrono::{Datelike, Local, TimeZone};
use koc_core::value::Value;

fn bank() -> AnswerBank {
    AnswerBank::new()
}

#[test]
fn test_find_answer_exact() {
    let answer = bank().find_answer("《三国演义》中，「大意失街亭」的是马谩？");
    assert_eq!(answer, 1);
}

#[test]
fn test_find_answer_default() {
    let answer = bank().find_answer("这是一道不存在的题目12345");
    assert_eq!(answer, 1);
}

#[test]
fn test_normalize_text() {
    assert_eq!(normalize_text("Hello World"), "helloworld");
    assert_eq!(normalize_text("  A  B  C  "), "abc");
}

#[test]
fn bank_matches_whole_and_partial_questions() {
    let items = vec![
        ("Capital of France?".to_string(), 3u32),
        ("".to_string(), 4),
        ("zero".to_string(), 0),
        ("Largest Ocean".to_string(), 2),
        ("capital of  france?".to_string(), 4),
    ];
    let b = AnswerBank::from_items(&items);
    assert_eq!(b.question_count(), 2);
    assert_eq!(b.find_answer("CAPITAL OF FRANCE?"), 4);
    assert_eq!(b.find_answer("the largest ocean is?"), 2);
    assert_eq!(b.find_answer("ocean"), 2);
    assert_eq!(b.find_answer("nothing here"), 1);
    assert_eq!(b.find_answer("   "), 1);
    assert_eq!(normalize_text("Ä B\u{3000}C"), "äbc");
}

#[test]
fn quiz_answers_follow_the_bank() {
    let b = AnswerBank::from_items(&vec![("two plus two".to_string(), 4u32)]);
    let q = |id: i64, text: &str| {
        Value::Object(vec![("id".to_string(), Value::Int(id)), ("question".to_string(), Value::Str(text.to_string()))])
    };
    let resp = Value::Object(vec![
        ("questionList".to_string(), Value::Array(vec![q(7, "Two plus two"), q(8, "unknown")])),
        ("studyId".to_string(), Value::Int(55)),
    ]);
    let (id, answers) = study_answers(&resp, &b).unwrap();
    assert_eq!(id, 55);
    assert_eq!(answers, vec![(7, 4), (8, 1)]);
    let missing = Value::Object(vec![]);
    assert_eq!(
        study_answers(&missing, &b).unwrap_err(),
        "Missing questionList or studyId in study_startgame response"
    );
}

fn current_week() -> koc_core::study::WeekWindow {
    let now = Local::now();
    let monday = now.date_naive() - chrono::Duration::days(now.weekday().num_days_from_monday() as i64);
    let next = monday + chrono::Duration::days(7);
    let at_midnight = |d: chrono::NaiveDate| {
        Local.from_local_datetime(&d.and_hms_opt(0, 0, 0).unwrap()).earliest().unwrap().timestamp()
    };
    koc_core::study::WeekWindow { start: at_midnight(monday), end: at_midnight(next) }
}

#[test]
fn test_is_in_current_week() {
    let now = chrono::Local::now().timestamp();
    assert!(koc_core::study::is_in_current_week(now, current_week()));
    // 1 year ago should not be in current week
    assert!(!koc_core::study::is_in_current_week(now - 365 * 86400, current_week()));
}

#[test]
fn weekly_quiz_completion() {
    let week = koc_core::study::WeekWindow { start: 1000, end: 2000 };
    let quiz = |best: i64, begin: i64| {
        Value::Object(vec![(
            "role".to_string(),
            Value::Object(vec![(
                "study".to_string(),
                Value::Object(vec![
                    ("maxCorrectNum".to_string(), Value::Int(best)),
                    ("beginTime".to_string(), Value::Int(begin)),
                ]),
            )]),
        )])
    };
    assert!(koc_core::study::is_study_completed_this_week(Some(&quiz(10, 1500)), week));
    assert!(!koc_core::study::is_study_completed_this_week(Some(&quiz(9, 1500)), week));
    assert!(!koc_core::study::is_study_completed_this_week(Some(&quiz(10, 2000)), week));
    assert!(!koc_core::study::is_study_completed_this_week(None, week));
}
