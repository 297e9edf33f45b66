use ceh_quiz::classify::{check_for_duplicates, count_of_type};
use ceh_quiz::questions::{Question, QuestionType, TypedQuestion};

fn q(question: &str, answer: &str, hint: Option<&str>, options: [&str; 4]) -> Question {
    Question {
        question: question.to_string(),
        answer: answer.to_string(),
        hint: hint.map(|h| h.to_string()),
        options: options.iter().map(|o| o.to_string()).collect(),
    }
}

fn texts_sorted(pool: &[Question]) -> Vec<String> {
    let mut v: Vec<String> = pool.iter().map(|x| x.question.clone()).collect();
    v.sort();
    v
}

fn classified_texts_sorted(pool: &[TypedQuestion]) -> Vec<String> {
    let mut v: Vec<String> = pool.iter().map(|x| x.question.question.clone()).collect();
    v.sort();
    v
}

#[test]
fn classification_keeps_every_question() {
    let pool = vec![
        q("a", "x", None, ["x", "y", "z", "w"]),
        q("b", "y", None, ["x", "y", "z", "w"]),
        q("a", "x", None, ["x", "y", "z", "w"]),
        q("c", "z", Some("h"), ["z", "y", "x", "w"]),
        q("a", "q", None, ["q", "y", "z", "w"]),
    ];
    let classified = check_for_duplicates(&pool);
    assert_eq!(classified.len(), pool.len());
    assert_eq!(texts_sorted(&pool), classified_texts_sorted(&classified));
}

#[test]
fn unique_text_is_tagged_unique() {
    let pool = vec![
        q("only", "x", None, ["x", "y", "z", "w"]),
        q("dup", "x", None, ["x", "y", "z", "w"]),
        q("dup", "y", None, ["y", "x", "z", "w"]),
    ];
    let classified = check_for_duplicates(&pool);
    let only: Vec<&TypedQuestion> =
        classified.iter().filter(|t| t.question.question == "only").collect();
    assert_eq!(only.len(), 1);
    assert_eq!(only[0].qtype, QuestionType::DefaultItem);
}

#[test]
fn fully_equal_pair_marks_the_earlier_entry() {
    // Two records equal in every field: the first sees a full copy after it
    // and is a full duplicate; the last entry of the group has no later copy
    // and counts as a duplicate by text only.
    let pool = vec![
        q("dup", "x", None, ["x", "y", "z", "w"]),
        q("dup", "x", None, ["x", "y", "z", "w"]),
    ];
    let classified = check_for_duplicates(&pool);
    assert_eq!(classified.len(), 2);
    assert_eq!(classified[0].qtype, QuestionType::DuplicateNodes);
    assert_eq!(classified[1].qtype, QuestionType::DuplicateQuestions);
}

#[test]
fn three_identical_records() {
    let pool = vec![
        q("dup", "x", None, ["x", "y", "z", "w"]),
        q("dup", "x", None, ["x", "y", "z", "w"]),
        q("dup", "x", None, ["x", "y", "z", "w"]),
    ];
    let classified = check_for_duplicates(&pool);
    assert_eq!(classified.len(), 3);
    assert_eq!(classified[0].qtype, QuestionType::DuplicateNodes);
    assert_eq!(classified[1].qtype, QuestionType::DuplicateNodes);
    assert_eq!(classified[2].qtype, QuestionType::DuplicateQuestions);
}

#[test]
fn same_text_different_options_are_text_duplicates() {
    let pool = vec![
        q("dup", "x", None, ["x", "y", "z", "w"]),
        q("dup", "x", None, ["a", "b", "c", "d"]),
    ];
    let classified = check_for_duplicates(&pool);
    assert_eq!(classified.len(), 2);
    assert_eq!(classified[0].qtype, QuestionType::DuplicateQuestions);
    assert_eq!(classified[1].qtype, QuestionType::DuplicateQuestions);
    assert_eq!(count_of_type(&classified, QuestionType::DuplicateQuestions), 2);
    assert_eq!(count_of_type(&classified, QuestionType::DuplicateNodes), 0);
}

#[test]
fn empty_pool_classifies_to_nothing() {
    let pool: Vec<Question> = Vec::new();
    let classified = check_for_duplicates(&pool);
    assert_eq!(classified.len(), 0);
}

#[test]
fn bucket_order_follows_first_occurrence() {
    let pool = vec![
        q("b", "x", None, ["x", "y", "z", "w"]),
        q("a", "x", None, ["x", "y", "z", "w"]),
        q("b", "y", None, ["y", "x", "z", "w"]),
    ];
    let classified = check_for_duplicates(&pool);
    // The "b" group comes first (first occurrence), in insertion order.
    assert_eq!(classified[0].question.question, "b");
    assert_eq!(classified[0].question.answer, "x");
    assert_eq!(classified[1].question.question, "b");
    assert_eq!(classified[1].question.answer, "y");
    assert_eq!(classified[2].question.question, "a");
    assert_eq!(classified[2].qtype, QuestionType::DefaultItem);
}

#[test]
fn duplicate_counts_are_reported() {
    let pool = vec![
        q("dup", "x", None, ["x", "y", "z", "w"]),
        q("dup", "x", None, ["a", "b", "c", "d"]),
        q("solo", "x", None, ["x", "y", "z", "w"]),
    ];
    let classified = check_for_duplicates(&pool);
    let dq = count_of_type(&classified, QuestionType::DuplicateQuestions);
    let dn = count_of_type(&classified, QuestionType::DuplicateNodes);
    let report = ceh_quiz::quiz::duplicate_report(dq, dn);
    assert_eq!(report, "2 duplicate questions found, 0 duplicate nodes found");
}
