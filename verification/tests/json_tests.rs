use ceh_quiz::json::{load_question_pool, parse_questions, serialize_questions, add_question_to_json};
use ceh_quiz::questions::{Question, create_question_from_text, ClipboardError};

fn q(question: &str, answer: &str, hint: Option<&str>, options: [&str; 4]) -> Question {
    Question {
        question: question.to_string(),
        answer: answer.to_string(),
        hint: hint.map(|h| h.to_string()),
        options: options.iter().map(|o| o.to_string()).collect(),
    }
}

#[test]
fn empty_pool_serializes_to_an_empty_array() {
    let pool: Vec<Question> = Vec::new();
    assert_eq!(serialize_questions(&pool), "[]");
    assert_eq!(load_question_pool("[]"), pool);
    assert_eq!(load_question_pool(" [ ] "), pool);
}

#[test]
fn one_question_document_is_pretty_printed() {
    let pool = vec![q("a", "x", None, ["x", "y", "z", "w"])];
    let text = serialize_questions(&pool);
    let expected = "[\n  {\n    \"question\": \"a\",\n    \"answer\": \"x\",\n    \"hint\": null,\n    \"options\": [\n      \"x\",\n      \"y\",\n      \"z\",\n      \"w\"\n    ]\n  }\n]";
    assert_eq!(text, expected);
}

#[test]
fn a_written_pool_reads_back_unchanged() {
    let pool = vec![
        q("a", "x", None, ["x", "y", "z", "w"]),
        q("b?", "why", Some("think"), ["how", "why", "when", "who"]),
        q("weird \"chars\"\n\tand \\ more", "x", Some("line\nbreak"), ["x", "", "z", "w"]),
    ];
    let text = serialize_questions(&pool);
    let back = load_question_pool(&text);
    assert_eq!(back, pool);
}

#[test]
fn append_reads_back_as_old_pool_plus_new_question() {
    let pool = vec![q("a", "x", None, ["x", "y", "z", "w"])];
    let extra = q("b", "y", Some("h"), ["y", "x", "z", "w"]);
    let text = add_question_to_json(&pool, &extra);
    let back = load_question_pool(&text);
    let mut grown = pool.clone();
    grown.push(extra);
    assert_eq!(back, grown);
}

#[test]
fn malformed_documents_load_as_an_empty_pool() {
    assert_eq!(load_question_pool("").len(), 0);
    assert_eq!(load_question_pool("not json").len(), 0);
    assert_eq!(load_question_pool("[{\"question\": \"a\"}]").len(), 0);
    assert_eq!(load_question_pool("[{]").len(), 0);
    // options must hold exactly four strings
    assert_eq!(
        load_question_pool(
            "[{\"question\": \"a\", \"answer\": \"x\", \"hint\": null, \"options\": [\"x\"]}]",
        )
        .len(),
        0,
    );
    assert!(parse_questions("[").is_none());
}

#[test]
fn compact_documents_parse_too() {
    let text = "[{\"question\":\"a\",\"answer\":\"x\",\"hint\":\"h\",\"options\":[\"x\",\"y\",\"z\",\"w\"]}]";
    let pool = parse_questions(text).expect("well-formed document");
    assert_eq!(pool.len(), 1);
    assert_eq!(pool[0], q("a", "x", Some("h"), ["x", "y", "z", "w"]));
}

#[test]
fn string_escapes_decode() {
    let text = "[{\"question\":\"a\\nb\\t\\\"c\\\"\\\\d\\u0041\",\"answer\":\"x\",\"hint\":null,\"options\":[\"x\",\"y\",\"z\",\"w\"]}]";
    let pool = parse_questions(text).expect("escapes are standard");
    assert_eq!(pool[0].question, "a\nb\t\"c\"\\dA");
}

#[test]
fn clipboard_import_survives_the_store() {
    let clip = "Which port does HTTPS use?\nA\n80\nB\n443\nC\n22\nD\n8080";
    let imported = create_question_from_text(clip).expect("well-formed import");
    assert_eq!(imported.question, "Which port does HTTPS use?");
    assert_eq!(imported.answer, "");
    assert_eq!(imported.hint, None);
    assert_eq!(imported.options, vec!["80", "443", "22", "8080"]);
    // serialize, then parse: the question comes back unchanged
    let one = vec![imported.clone()];
    let back = load_question_pool(&serialize_questions(&one));
    assert_eq!(back, one);
}

#[test]
fn clipboard_multi_line_question_text() {
    let clip = "A question that\nspans two lines\nA\none\nB\ntwo\nC\nthree\nD\nfour\n";
    let imported = create_question_from_text(clip).expect("well-formed import");
    assert_eq!(imported.question, "A question that spans two lines");
    assert_eq!(imported.options, vec!["one", "two", "three", "four"]);
}

#[test]
fn clipboard_quoted_label_form() {
    let clip = "q\n\"A,\"\none\nB\ntwo\nC\nthree\nD\nfour";
    let imported = create_question_from_text(clip).expect("well-formed import");
    assert_eq!(imported.question, "q");
    assert_eq!(imported.options, vec!["one", "two", "three", "four"]);
}

#[test]
fn clipboard_errors() {
    assert_eq!(create_question_from_text("one line only"), Err(ClipboardError::InvalidFormat));
    assert_eq!(
        create_question_from_text("q\nA\nonly\nB\ntwo"),
        Err(ClipboardError::InvalidOptionCount),
    );
    assert_eq!(ClipboardError::InvalidFormat.message(), "Invalid question format");
    assert_eq!(ClipboardError::InvalidOptionCount.message(), "Invalid number of options");
}

#[test]
fn single_question_compact_row() {
    let one = q("a", "x", Some("h"), ["x", "y", "z", "w"]);
    assert_eq!(
        ceh_quiz::json::question_to_json(&one),
        "{\"question\":\"a\",\"answer\":\"x\",\"hint\":\"h\",\"options\":[\"x\",\"y\",\"z\",\"w\"]}",
    );
    let none = q("b", "y", None, ["1", "2", "3", "4"]);
    assert_eq!(
        ceh_quiz::json::question_to_json(&none),
        "{\"question\":\"b\",\"answer\":\"y\",\"hint\":null,\"options\":[\"1\",\"2\",\"3\",\"4\"]}",
    );
}
